//! Port expressions: lists of single ports and inclusive ranges, such as
//! `8080-8082,9000`, and the pool of candidate ports that one stands for.

use vstd::prelude::*;
use super::decimal::{parse_port_in, port_of_text};
use super::tool::chars_of;

verus! {

/// Whether `c` ends one item of a port expression and starts the next.
pub open spec fn is_separator(c: char) -> bool {
    c == ',' || c == '/'
}

/// The items of a port expression: the stretches between its separators, in
/// order. An expression with `n` separators has `n + 1` items, some of which
/// may be empty.
pub open spec fn split_items(expr: Seq<char>) -> Seq<Seq<char>>
    decreases expr.len(),
{
    if expr.len() == 0 {
        seq![Seq::empty()]
    } else {
        let before = split_items(expr.drop_last());
        if is_separator(expr.last()) {
            before.push(Seq::empty())
        } else {
            before.drop_last().push(before.last().push(expr.last()))
        }
    }
}

/// The ports from `first` to `last`, both included, in ascending order.
/// Empty if `first` is greater than `last`.
pub open spec fn port_range(first: u16, last: u16) -> Seq<u16> {
    Seq::new(
        if first <= last {
            (last - first + 1) as nat
        } else {
            0
        },
        |i: int| (first + i) as u16,
    )
}

/// The first and the last port that one item stands for, if it is well
/// formed.
///
/// An item without `-` is a single port and stands for that port alone. Any
/// other item is cut at its first `-`; both sides must be ports, and the item
/// stands for the range between them.
pub open spec fn item_bounds(item: Seq<char>) -> Option<(u16, u16)> {
    match item.index_of_first('-') {
        None => match port_of_text(item) {
            Some(port) => Some((port, port)),
            None => None,
        },
        Some(dash) => match (port_of_text(item.take(dash)), port_of_text(item.skip(dash + 1))) {
            (Some(first), Some(last)) => Some((first, last)),
            _ => None,
        },
    }
}

/// The ports that a list of items stands for: the ranges of the items one
/// after the other. There is no result if any item is malformed.
pub open spec fn ports_of_items(items: Seq<Seq<char>>) -> Option<Seq<u16>>
    decreases items.len(),
{
    if items.len() == 0 {
        Some(Seq::empty())
    } else {
        match (ports_of_items(items.drop_last()), item_bounds(items.last())) {
            (Some(before), Some((first, last))) => Some(before + port_range(first, last)),
            _ => None,
        }
    }
}

/// The pool of candidate ports that a port expression stands for, in the
/// order of the expression and with repetitions kept. There is no pool if
/// any item of the expression is malformed.
pub open spec fn port_pool(expr: Seq<char>) -> Option<Seq<u16>> {
    ports_of_items(split_items(expr))
}

/// Reading further never changes the items that a separator has closed.
pub proof fn lemma_split_items_prefix(expr: Seq<char>, k: int)
    requires
        0 <= k <= expr.len(),
    ensures
        1 <= split_items(expr.take(k)).len() <= split_items(expr).len(),
        split_items(expr.take(k)).drop_last() == split_items(expr).take(
            split_items(expr.take(k)).len() - 1,
        ),
    decreases expr.len(),
{
    if k == expr.len() {
        assert(expr.take(k) =~= expr);
        lemma_split_items_nonempty(expr);
        assert(split_items(expr).drop_last() =~= split_items(expr).take(
            split_items(expr).len() - 1,
        ));
    } else {
        lemma_split_items_prefix(expr.drop_last(), k);
        assert(expr.drop_last().take(k) =~= expr.take(k));
        let closed = split_items(expr.take(k)).len() - 1;
        assert(split_items(expr).take(closed) =~= split_items(expr.drop_last()).take(closed));
    }
}

/// Every expression has at least one item.
pub proof fn lemma_split_items_nonempty(expr: Seq<char>)
    ensures
        split_items(expr).len() >= 1,
    decreases expr.len(),
{
    if expr.len() > 0 {
        lemma_split_items_nonempty(expr.drop_last());
    }
}

/// One malformed item spoils the whole list.
pub proof fn lemma_ports_of_items_prefix(items: Seq<Seq<char>>, k: int)
    requires
        0 <= k <= items.len(),
        ports_of_items(items.take(k)) is None,
    ensures
        ports_of_items(items) is None,
    decreases items.len(),
{
    if k == items.len() {
        assert(items.take(k) =~= items);
    } else {
        assert(items.drop_last().take(k) =~= items.take(k));
        lemma_ports_of_items_prefix(items.drop_last(), k);
    }
}

/// Whether `port` lies in the range that `item` stands for.
pub open spec fn item_holds(item: Seq<char>, port: u16) -> bool {
    match item_bounds(item) {
        Some((first, last)) => first <= port <= last,
        None => false,
    }
}

/// The pool of a list of items holds exactly the ports that lie in the range
/// of one of the items, and it exists exactly if every item is well formed.
pub proof fn lemma_ports_of_items_members(items: Seq<Seq<char>>, port: u16)
    ensures
        ports_of_items(items) is Some <==> forall|j: int|
            0 <= j < items.len() ==> item_bounds(#[trigger] items[j]) is Some,
        ports_of_items(items) matches Some(pool) ==> (pool.contains(port) <==> exists|j: int|
            0 <= j < items.len() && item_holds(#[trigger] items[j], port)),
    decreases items.len(),
{
    if items.len() > 0 {
        let front = items.drop_last();
        lemma_ports_of_items_members(front, port);
        assert(forall|j: int| 0 <= j < front.len() ==> front[j] == items[j]);
        if ports_of_items(items) is Some {
            let before = ports_of_items(front).unwrap();
            let (first, last) = item_bounds(items.last()).unwrap();
            let range = port_range(first, last);
            let pool = before + range;
            if pool.contains(port) {
                let i = choose|i: int| 0 <= i < pool.len() && pool[i] == port;
                if i < before.len() {
                    assert(before[i] == port);
                    assert(before.contains(port));
                    let j = choose|j: int| 0 <= j < front.len() && item_holds(front[j], port);
                    assert(item_holds(items[j], port));
                } else {
                    assert(range[i - before.len()] == port);
                    assert(item_holds(items[items.len() - 1], port));
                }
            }
            if exists|j: int| 0 <= j < items.len() && item_holds(#[trigger] items[j], port) {
                let j = choose|j: int| 0 <= j < items.len() && item_holds(#[trigger] items[j], port);
                if j < front.len() {
                    assert(item_holds(front[j], port));
                    let i = choose|i: int| 0 <= i < before.len() && before[i] == port;
                    assert(pool[i] == port);
                } else {
                    assert(range[port - first] == port);
                    assert(pool[before.len() + (port - first)] == port);
                }
            }
        }
    }
}

/// The pool of a port expression holds exactly the ports that lie in the
/// range of one of its items: `8080-8082,9000` stands for 8080, 8081, 8082
/// and 9000 and for nothing else.
pub proof fn lemma_port_pool_members(expr: Seq<char>, port: u16)
    ensures
        port_pool(expr) is Some <==> forall|j: int|
            0 <= j < split_items(expr).len() ==> item_bounds(#[trigger] split_items(expr)[j])
                is Some,
        port_pool(expr) matches Some(pool) ==> (pool.contains(port) <==> exists|j: int|
            0 <= j < split_items(expr).len() && item_holds(
                #[trigger] split_items(expr)[j],
                port,
            )),
{
    lemma_ports_of_items_members(split_items(expr), port);
}

/// The index of the first `-` in `chars[from..to]`, or `to` if there is none.
fn find_dash(chars: &Vec<char>, from: usize, to: usize) -> (k: usize)
    requires
        from <= to <= chars.len(),
    ensures
        from <= k <= to,
        forall|j: int| from <= j < k ==> chars@[j] != '-',
        k < to ==> chars@[k as int] == '-',
{
    let mut k: usize = from;
    while k < to && chars[k] != '-'
        invariant
            from <= k <= to <= chars.len(),
            forall|j: int| from <= j < k ==> chars@[j] != '-',
        decreases to - k,
    {
        k += 1;
    }
    k
}

/// Reads the item written in `chars[from..to]`.
fn item_bounds_in(chars: &Vec<char>, from: usize, to: usize) -> (r: Option<(u16, u16)>)
    requires
        from <= to <= chars.len(),
    ensures
        r == item_bounds(chars@.subrange(from as int, to as int)),
{
    let ghost item = chars@.subrange(from as int, to as int);
    let dash = find_dash(chars, from, to);
    proof {
        item.index_of_first_ensures('-');
        if dash < to {
            assert(item[dash - from] == '-');
            assert(item.index_of_first('-') == Some(dash - from));
            assert(item.take(dash - from) =~= chars@.subrange(from as int, dash as int));
            assert(item.skip(dash - from + 1) =~= chars@.subrange(dash + 1, to as int));
        } else {
            assert(forall|j: int| 0 <= j < item.len() ==> item[j] == chars@[from + j]);
            assert(!item.contains('-'));
        }
    }
    if dash == to {
        match parse_port_in(chars, from, to) {
            Some(port) => Some((port, port)),
            None => None,
        }
    } else {
        match parse_port_in(chars, from, dash) {
            None => None,
            Some(first) => match parse_port_in(chars, dash + 1, to) {
                None => None,
                Some(last) => Some((first, last)),
            },
        }
    }
}

/// Appends the ports from `first` to `last`, both included, to `pool`.
fn push_range(pool: &mut Vec<u16>, first: u16, last: u16)
    ensures
        final(pool)@ == old(pool)@ + port_range(first, last),
{
    let ghost range = port_range(first, last);
    let mut next: u32 = first as u32;
    while next <= last as u32
        invariant
            first <= next <= last + 1 || (first > last && next == first),
            range == port_range(first, last),
            pool@ == old(pool)@ + range.take(next - first),
        decreases last + 1 - next,
    {
        assert(range.take(next - first + 1) =~= range.take(next - first).push(next as u16));
        pool.push(next as u16);
        next += 1;
    }
    assert(range.take(next - first) =~= range);
}

/// Expands a port expression into its pool of candidate ports.
///
/// The expression is a list of items separated by `,` or `/`. Each item is a
/// single port or two ports joined by `-`, which stands for every port from
/// the first to the second. The pool holds the ports of all items in order.
/// There is no pool if any item is malformed.
pub fn parse_ports(expr: &str) -> (r: Option<Vec<u16>>)
    ensures
        r.deep_view() == port_pool(expr@),
{
    let chars = chars_of(expr);
    let n = chars.len();
    let mut pool: Vec<u16> = Vec::new();
    let mut start: usize = 0;
    let mut i: usize = 0;
    let ghost mut closed: Seq<Seq<char>> = Seq::empty();
    assert(chars@.take(0) =~= Seq::<char>::empty());
    assert(chars@.subrange(0, 0) =~= Seq::<char>::empty());
    assert(split_items(chars@.take(0)) =~= closed.push(chars@.subrange(0, 0)));
    while i < n
        invariant
            start <= i <= n == chars.len(),
            chars@ == expr@,
            split_items(chars@.take(i as int)) == closed.push(
                chars@.subrange(start as int, i as int),
            ),
            ports_of_items(closed) == Some(pool@),
        decreases n - i,
    {
        let c = chars[i];
        let ghost item = chars@.subrange(start as int, i as int);
        let ghost before = split_items(chars@.take(i as int));
        proof {
            assert(chars@.take(i + 1).drop_last() =~= chars@.take(i as int));
            assert(before.drop_last() =~= closed);
        }
        if c == ',' || c == '/' {
            proof {
                assert(closed.push(item).drop_last() =~= closed);
            }
            match item_bounds_in(&chars, start, i) {
                None => {
                    proof {
                        lemma_split_items_prefix(chars@, i + 1);
                        assert(split_items(chars@.take(i + 1)).drop_last() =~= closed.push(item));
                        lemma_ports_of_items_prefix(split_items(chars@), closed.len() as int + 1);
                    }
                    return None;
                },
                Some((first, last)) => {
                    push_range(&mut pool, first, last);
                },
            }
            proof {
                closed = closed.push(item);
                assert(chars@.subrange(i + 1, i + 1) =~= Seq::<char>::empty());
            }
            start = i + 1;
        } else {
            proof {
                assert(item.push(c) =~= chars@.subrange(start as int, i + 1));
            }
        }
        i += 1;
    }
    proof {
        assert(chars@.take(n as int) =~= chars@);
        assert(closed.push(chars@.subrange(start as int, n as int)).drop_last() =~= closed);
    }
    match item_bounds_in(&chars, start, n) {
        None => None,
        Some((first, last)) => {
            push_range(&mut pool, first, last);
            Some(pool)
        },
    }
}

} // verus!
