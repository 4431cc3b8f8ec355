//! The order of the records in the table.
//!
//! Records are put in order by one column, up or down; records that the
//! column does not tell apart keep the order they had.

use crate::datetime::lemma_before_is_an_order;
use crate::model::{CardTransaction, SortColumn, SortDirection};
use crate::text::to_chars;
use vstd::prelude::*;

verus! {

/// `a` comes before `b` in the order of a dictionary.
pub open spec fn lex_less(a: Seq<char>, b: Seq<char>) -> bool
    decreases a.len(),
{
    if b.len() == 0 {
        false
    } else if a.len() == 0 {
        true
    } else if a[0] != b[0] {
        a[0] < b[0]
    } else {
        lex_less(a.drop_first(), b.drop_first())
    }
}

/// The order of a dictionary is an order: of two texts that differ one comes
/// first, and what comes before an earlier text comes before the later.
pub proof fn lemma_lex_is_an_order(a: Seq<char>, b: Seq<char>, c: Seq<char>)
    ensures
        !lex_less(a, a),
        lex_less(a, b) || lex_less(b, a) || a == b,
        lex_less(a, b) && lex_less(b, c) ==> lex_less(a, c),
    decreases a.len(),
{
    if a.len() == 0 {
        if b.len() == 0 {
            assert(a =~= b);
        }
    } else {
        let x = a.drop_first();
        lemma_lex_is_an_order(x, x, x);
        if b.len() > 0 {
            let y = b.drop_first();
            let z = if c.len() > 0 {
                c.drop_first()
            } else {
                y
            };
            lemma_lex_is_an_order(x, y, z);
            if a[0] == b[0] && x == y {
                assert(a =~= b) by {
                    assert forall|i: int| 0 <= i < a.len() implies a[i] == b[i] by {
                        if i > 0 {
                            assert(x[i - 1] == a[i]);
                            assert(y[i - 1] == b[i]);
                        }
                    }
                }
            }
        }
    }
}

/// Whether `a` comes before `b` in the order of a dictionary.
pub fn chars_less(a: &Vec<char>, b: &Vec<char>) -> (r: bool)
    ensures
        r == lex_less(a@, b@),
{
    let mut i: usize = 0;
    assert(a@.skip(0) == a@ && b@.skip(0) == b@);
    while i < a.len() && i < b.len()
        invariant
            i <= a.len(),
            i <= b.len(),
            lex_less(a@, b@) == lex_less(a@.skip(i as int), b@.skip(i as int)),
        decreases a.len() - i,
    {
        proof {
            assert(a@.skip(i as int)[0] == a@[i as int]);
            assert(b@.skip(i as int)[0] == b@[i as int]);
            assert(a@.skip(i as int).drop_first() == a@.skip(i + 1));
            assert(b@.skip(i as int).drop_first() == b@.skip(i + 1));
        }
        if a[i] != b[i] {
            return a[i] < b[i];
        }
        i += 1;
    }
    i < b.len()
}

/// `a` is less than `b` by the column: earlier, of a merchant that comes
/// first in the dictionary, or of a smaller amount. The column of the
/// indices tells no two records apart.
pub open spec fn key_less(a: CardTransaction, b: CardTransaction, column: SortColumn) -> bool {
    match column {
        SortColumn::Index => false,
        SortColumn::DateTime => a.datetime.before(b.datetime),
        SortColumn::Merchant => lex_less(a.merchant@, b.merchant@),
        SortColumn::Amount => a.amount < b.amount,
    }
}

/// `a` has to stand before `b`: it is less by the column where the order
/// goes up, greater where it goes down.
pub open spec fn precedes(
    a: CardTransaction,
    b: CardTransaction,
    column: SortColumn,
    direction: SortDirection,
) -> bool {
    match direction {
        SortDirection::Ascending => key_less(a, b, column),
        SortDirection::Descending => key_less(b, a, column),
    }
}

/// What has to stand before an earlier record has to stand before the later
/// ones, and what need not stand before a later record need not stand
/// before the earlier ones.
pub proof fn lemma_precedes_is_an_order(
    a: CardTransaction,
    b: CardTransaction,
    c: CardTransaction,
    column: SortColumn,
    direction: SortDirection,
)
    ensures
        !precedes(a, a, column, direction),
        precedes(a, b, column, direction) && precedes(b, c, column, direction) ==> precedes(
            a,
            c,
            column,
            direction,
        ),
        !precedes(a, b, column, direction) && !precedes(b, c, column, direction) ==> !precedes(
            a,
            c,
            column,
            direction,
        ),
{
    lemma_before_is_an_order(a.datetime, b.datetime, c.datetime);
    lemma_before_is_an_order(c.datetime, b.datetime, a.datetime);
    lemma_before_is_an_order(b.datetime, a.datetime, c.datetime);
    lemma_before_is_an_order(b.datetime, c.datetime, a.datetime);
    lemma_lex_is_an_order(a.merchant@, b.merchant@, c.merchant@);
    lemma_lex_is_an_order(c.merchant@, b.merchant@, a.merchant@);
    lemma_lex_is_an_order(b.merchant@, a.merchant@, c.merchant@);
    lemma_lex_is_an_order(b.merchant@, c.merchant@, a.merchant@);
    lemma_lex_is_an_order(a.merchant@, c.merchant@, b.merchant@);
    lemma_lex_is_an_order(c.merchant@, a.merchant@, b.merchant@);
}

/// Whether `a` has to stand before `b`.
pub fn comes_before(
    a: &CardTransaction,
    b: &CardTransaction,
    column: SortColumn,
    direction: SortDirection,
) -> (r: bool)
    ensures
        r == precedes(*a, *b, column, direction),
{
    let (x, y) = match direction {
        SortDirection::Ascending => (a, b),
        SortDirection::Descending => (b, a),
    };
    match column {
        SortColumn::Index => false,
        SortColumn::DateTime => x.datetime.is_before(&y.datetime),
        SortColumn::Merchant => chars_less(
            &to_chars(x.merchant.as_str()),
            &to_chars(y.merchant.as_str()),
        ),
        SortColumn::Amount => x.amount < y.amount,
    }
}

/// `new` holds the records of `old` in the order of the column, and those
/// that the column does not tell apart in the order they had: the record at
/// `i` in `new` is the one that stood at `from[i]` in `old`.
pub open spec fn is_stable_sort(
    old: Seq<CardTransaction>,
    new: Seq<CardTransaction>,
    from: Seq<int>,
    column: SortColumn,
    direction: SortDirection,
) -> bool {
    &&& new.len() == old.len()
    &&& from.len() == old.len()
    &&& forall|i: int|
        0 <= i < from.len() ==> 0 <= #[trigger] from[i] < old.len() && new[i] == old[from[i]]
    &&& forall|i: int, j: int|
        #![trigger from[i], from[j]]
        0 <= i < j < from.len() ==> from[i] != from[j]
    &&& forall|i: int, j: int|
        #![trigger new[i], new[j]]
        0 <= i < j < new.len() ==> !precedes(new[j], new[i], column, direction)
    &&& forall|i: int, j: int|
        #![trigger new[i], new[j]]
        0 <= i < j < new.len() && !precedes(new[i], new[j], column, direction) ==> from[i]
            < from[j]
}

/// The first `upto` records of `now` are those of `old`, in order; the rest
/// stand where they stood.
spec fn sorted_upto(
    old: Seq<CardTransaction>,
    now: Seq<CardTransaction>,
    from: Seq<int>,
    upto: int,
    column: SortColumn,
    direction: SortDirection,
) -> bool {
    &&& now.len() == old.len()
    &&& from.len() == old.len()
    &&& 0 <= upto <= old.len()
    &&& forall|i: int|
        0 <= i < from.len() ==> 0 <= #[trigger] from[i] < old.len() && now[i] == old[from[i]]
    &&& forall|i: int| 0 <= i < upto ==> #[trigger] from[i] < upto
    &&& forall|i: int| upto <= i < from.len() ==> #[trigger] from[i] == i
    &&& forall|i: int, j: int|
        #![trigger from[i], from[j]]
        0 <= i < j < from.len() ==> from[i] != from[j]
    &&& forall|i: int, j: int|
        #![trigger now[i], now[j]]
        0 <= i < j < upto ==> !precedes(now[j], now[i], column, direction)
    &&& forall|i: int, j: int|
        #![trigger now[i], now[j]]
        0 <= i < j < upto && !precedes(now[i], now[j], column, direction) ==> from[i] < from[j]
}

/// `s` with the item at `i` moved to `j`, which is not after `i`.
spec fn moved<T>(s: Seq<T>, i: int, j: int) -> Seq<T> {
    s.remove(i).insert(j, s[i])
}

proof fn lemma_moved<T>(s: Seq<T>, i: int, j: int)
    requires
        0 <= j <= i < s.len(),
    ensures
        moved(s, i, j).len() == s.len(),
        forall|k: int| 0 <= k < j ==> #[trigger] moved(s, i, j)[k] == s[k],
        moved(s, i, j)[j] == s[i],
        forall|k: int| j < k <= i ==> #[trigger] moved(s, i, j)[k] == s[k - 1],
        forall|k: int| i < k < s.len() ==> #[trigger] moved(s, i, j)[k] == s[k],
{
}

/// The step of the sort: the record at `i`, moved to the first place `j`
/// where it has to stand before what is there, extends the sorted part.
proof fn lemma_insert_keeps_order(
    old: Seq<CardTransaction>,
    now: Seq<CardTransaction>,
    from: Seq<int>,
    i: int,
    j: int,
    column: SortColumn,
    direction: SortDirection,
)
    requires
        sorted_upto(old, now, from, i, column, direction),
        0 <= j <= i < now.len(),
        forall|k: int| 0 <= k < j ==> !precedes(now[i], #[trigger] now[k], column, direction),
        j < i ==> precedes(now[i], now[j], column, direction),
    ensures
        sorted_upto(old, moved(now, i, j), moved(from, i, j), i + 1, column, direction),
{
    let next = moved(now, i, j);
    let origin = moved(from, i, j);
    let x = now[i];
    lemma_moved(now, i, j);
    lemma_moved(from, i, j);
    assert forall|k: int| 0 <= k < origin.len() implies 0 <= #[trigger] origin[k] < old.len()
        && next[k] == old[origin[k]] by {
        if k < j {
            assert(origin[k] == from[k]);
        } else if k == j {
            assert(origin[k] == from[i]);
        } else if k <= i {
            assert(origin[k] == from[k - 1]);
        } else {
            assert(origin[k] == from[k]);
        }
    }
    assert forall|k: int| 0 <= k < i + 1 implies #[trigger] origin[k] < i + 1 by {
        if k < j {
            assert(origin[k] == from[k]);
        } else if k == j {
            assert(origin[k] == from[i]);
        } else {
            assert(origin[k] == from[k - 1]);
        }
    }
    assert forall|k: int| i + 1 <= k < origin.len() implies #[trigger] origin[k] == k by {
        assert(origin[k] == from[k]);
    }
    let preimage = |k: int|
        if k < j {
            k
        } else if k == j {
            i
        } else if k <= i {
            k - 1
        } else {
            k
        };
    assert forall|a: int, b: int|
        #![trigger origin[a], origin[b]]
        0 <= a < b < origin.len() implies origin[a] != origin[b] by {
        assert(origin[a] == from[preimage(a)]);
        assert(origin[b] == from[preimage(b)]);
        assert(preimage(a) != preimage(b));
        if preimage(a) < preimage(b) {
            assert(from[preimage(a)] != from[preimage(b)]);
        } else {
            assert(from[preimage(b)] != from[preimage(a)]);
        }
    }
    assert forall|a: int, b: int|
        #![trigger next[a], next[b]]
        0 <= a < b < i + 1 implies !precedes(next[b], next[a], column, direction) by {
        assert(next[a] == now[preimage(a)]);
        assert(next[b] == now[preimage(b)]);
        if b == j {
            assert(!precedes(now[i], now[a], column, direction));
        } else if a == j {
            let y = now[b - 1];
            if b - 1 > j {
                assert(!precedes(now[b - 1], now[j], column, direction));
            }
            lemma_precedes_is_an_order(y, x, now[j], column, direction);
            lemma_precedes_is_an_order(now[j], now[j], now[j], column, direction);
        } else {
            assert(preimage(a) < preimage(b) < i);
            assert(!precedes(now[preimage(b)], now[preimage(a)], column, direction));
        }
    }
    assert forall|a: int, b: int|
        #![trigger next[a], next[b]]
        0 <= a < b < i + 1 && !precedes(next[a], next[b], column, direction) implies origin[a]
            < origin[b] by {
        assert(next[a] == now[preimage(a)]);
        assert(next[b] == now[preimage(b)]);
        assert(origin[a] == from[preimage(a)]);
        assert(origin[b] == from[preimage(b)]);
        if b == j {
            assert(from[a] < i);
            assert(from[i] == i);
        } else if a == j {
            let y = now[b - 1];
            if b - 1 > j {
                assert(!precedes(now[b - 1], now[j], column, direction));
            }
            lemma_precedes_is_an_order(x, y, now[j], column, direction);
            assert(false);
        } else {
            assert(preimage(a) < preimage(b) < i);
            assert(!precedes(now[preimage(a)], now[preimage(b)], column, direction));
            assert(from[preimage(a)] < from[preimage(b)]);
        }
    }
}

/// Puts `records` in the order of the column; records that the column does
/// not tell apart keep the order they had.
pub fn sort_records(
    records: &mut Vec<CardTransaction>,
    column: SortColumn,
    direction: SortDirection,
)
    ensures
        exists|from: Seq<int>|
            is_stable_sort(old(records)@, final(records)@, from, column, direction),
{
    let n = records.len();
    let ghost mut from: Seq<int> = Seq::new(n as nat, |k: int| k);
    let mut i: usize = 0;
    while i < n
        invariant
            n == records.len(),
            i <= n,
            sorted_upto(old(records)@, records@, from, i as int, column, direction),
        decreases n - i,
    {
        let mut j: usize = 0;
        while j < i && !comes_before(&records[i], &records[j], column, direction)
            invariant
                n == records.len(),
                j <= i < n,
                forall|k: int|
                    0 <= k < j ==> !precedes(
                        records@[i as int],
                        #[trigger] records@[k],
                        column,
                        direction,
                    ),
            decreases i - j,
        {
            j += 1;
        }
        proof {
            lemma_insert_keeps_order(
                old(records)@,
                records@,
                from,
                i as int,
                j as int,
                column,
                direction,
            );
            from = moved(from, i as int, j as int);
        }
        let ghost before = records@;
        if j < i {
            let x = records.remove(i);
            records.insert(j, x);
        } else {
            assert(moved(before, i as int, j as int) =~= before);
        }
        assert(records@ == moved(before, i as int, j as int));
        i += 1;
    }
    assert(is_stable_sort(old(records)@, records@, from, column, direction));
}

} // verus!
