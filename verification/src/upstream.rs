//! What the demo upstream answers: nested nodes, long lists and some arithmetic, all within fixed
//! bounds so that a load test stays predictable.
use vstd::prelude::*;

use crate::request;
use crate::text;

verus! {

/// The deepest chain of nodes that is built.
pub const MAX_NESTED_DEPTH: i32 = 200;

/// The longest list that is built.
pub const MAX_LIST_SIZE: i32 = 50_000;

/// The largest Fibonacci index that is computed.
pub const MAX_FIB_INDEX: i32 = 45;

/// The longest sleep, in milliseconds.
pub const MAX_SLEEP_MS: i32 = 10_000;

/// How many headers are echoed.
pub const MAX_ECHOED_HEADERS: usize = 100;

/// A node of an answer.
#[derive(Debug)]
pub struct Node {
    pub id: i32,
    pub name: String,
    pub depth: i32,
    pub child: Option<Box<Node>>,
}

/// A node of an answer, as a mathematical value.
pub struct NodeTree {
    pub id: int,
    pub name: Seq<char>,
    pub depth: int,
    pub child: Option<Box<NodeTree>>,
}

/// The tree of a node.
pub open spec fn node_view(node: Node) -> NodeTree
    decreases node,
{
    NodeTree {
        id: node.id as int,
        name: node.name@,
        depth: node.depth as int,
        child: match node.child {
            Some(child) => Some(Box::new(node_view(*child))),
            None => None,
        },
    }
}

impl View for Node {
    type V = NodeTree;

    open spec fn view(&self) -> NodeTree {
        node_view(*self)
    }
}

/// The decimal digits of a number.
pub open spec fn digits(n: nat) -> Seq<char>
    decreases n,
{
    let last = ('0' as int + n % 10) as char;
    if n < 10 {
        seq![last]
    } else {
        digits(n / 10).push(last)
    }
}

/// A number in decimal.
pub open spec fn decimal(n: int) -> Seq<char> {
    if n < 0 {
        seq!['-'] + digits((-n) as nat)
    } else {
        digits(n as nat)
    }
}

fn push_digits(out: &mut String, n: u32)
    ensures
        final(out)@ == old(out)@ + digits(n as nat),
    decreases n,
{
    if n >= 10 {
        push_digits(out, n / 10);
    }
    let d: u8 = (n % 10) as u8;
    out.push((48 + d) as char);
    assert(out@ =~= old(out)@ + digits(n as nat));
}

/// Appends a number in decimal.
fn push_decimal(out: &mut String, n: i32)
    ensures
        final(out)@ == old(out)@ + decimal(n as int),
{
    let ghost before = out@;
    if n < 0 {
        out.push('-');
        let size: u32 = (0 - n as i64) as u32;
        push_digits(out, size);
        assert(out@ =~= before + decimal(n as int));
    } else {
        push_digits(out, n as u32);
    }
}

/// The chain of nodes from `cur` to `max`, each one the child of the one before; the last node is
/// `cur` itself where that is not below `max`.
pub open spec fn chain(cur: int, max: int) -> NodeTree
    decreases max - cur,
{
    NodeTree {
        id: cur,
        name: "node-"@ + decimal(cur),
        depth: cur,
        child: if cur < max {
            Some(Box::new(chain(cur + 1, max)))
        } else {
            None
        },
    }
}

/// Builds the chain of nodes from `cur` to `max`.
pub fn build_node(cur: i32, max: i32) -> (node: Node)
    ensures
        node@ == chain(cur as int, max as int),
    decreases max - cur,
{
    let mut name = "node-".to_owned();
    push_decimal(&mut name, cur);
    let child = if cur >= max {
        None
    } else {
        Some(Box::new(build_node(cur + 1, max)))
    };
    Node { id: cur, name, depth: cur, child }
}

/// How many nodes a chain has.
pub open spec fn chain_len(node: NodeTree) -> nat
    decreases node,
{
    match node.child {
        Some(child) => 1 + chain_len(*child),
        None => 1,
    }
}

/// A chain from `cur` to `max` has one node for each number from `cur` to `max`.
pub proof fn law_chain_has_a_node_for_each_number(cur: int, max: int)
    requires
        cur <= max,
    ensures
        chain_len(chain(cur, max)) == max - cur + 1,
    decreases max - cur,
{
    if cur < max {
        law_chain_has_a_node_for_each_number(cur + 1, max);
    }
}

/// The nearest number from `low` to `high`.
pub open spec fn clamped(n: int, low: int, high: int) -> int {
    if n < low {
        low
    } else if n > high {
        high
    } else {
        n
    }
}

fn clamp(n: i32, low: i32, high: i32) -> (r: i32)
    ensures
        r == clamped(n as int, low as int, high as int),
{
    if n < low {
        low
    } else if n > high {
        high
    } else {
        n
    }
}

/// A chain as deep as asked for, as far as the bound goes.
pub fn nested_node(depth: i32) -> (node: Node)
    ensures
        node@ == chain(0, clamped(depth as int, 0, MAX_NESTED_DEPTH as int)),
{
    build_node(0, clamp(depth, 0, MAX_NESTED_DEPTH))
}

/// No request makes a chain longer than the bound allows.
pub proof fn law_nested_nodes_are_bounded(depth: int)
    ensures
        1 <= chain_len(chain(0, clamped(depth, 0, MAX_NESTED_DEPTH as int))) <= MAX_NESTED_DEPTH + 1,
{
    law_chain_has_a_node_for_each_number(0, clamped(depth, 0, MAX_NESTED_DEPTH as int));
}

/// Item `i` of a list.
pub open spec fn item(i: int) -> NodeTree {
    NodeTree { id: i, name: "item-"@ + decimal(i), depth: 0, child: None }
}

/// A list as long as asked for, as far as the bound goes.
pub fn big_list(size: i32) -> (items: Vec<Node>)
    ensures
        items@.len() == clamped(size as int, 0, MAX_LIST_SIZE as int),
        forall|i: int| 0 <= i < items@.len() ==> (#[trigger] items@[i])@ == item(i),
{
    let len: i32 = clamp(size, 0, MAX_LIST_SIZE);
    let mut items: Vec<Node> = Vec::new();
    for i in 0..len
        invariant
            0 <= len,
            items@.len() == i,
            forall|j: int| 0 <= j < i ==> (#[trigger] items@[j])@ == item(j),
    {
        let mut name = "item-".to_owned();
        push_decimal(&mut name, i);
        items.push(Node { id: i, name, depth: 0, child: None });
    }
    items
}

/// The Fibonacci numbers, from zero and one on.
pub open spec fn fibonacci(n: nat) -> nat
    decreases n,
{
    if n < 2 {
        n
    } else {
        fibonacci((n - 1) as nat) + fibonacci((n - 2) as nat)
    }
}

proof fn lemma_ten_further(n: nat)
    ensures
        fibonacci(n + 10) == 55 * fibonacci(n + 1) + 34 * fibonacci(n),
        fibonacci(n + 11) == 89 * fibonacci(n + 1) + 55 * fibonacci(n),
{
    assert(fibonacci(n + 2) == fibonacci(n + 1) + fibonacci(n));
    assert(fibonacci(n + 3) == 2 * fibonacci(n + 1) + fibonacci(n));
    assert(fibonacci(n + 4) == 3 * fibonacci(n + 1) + 2 * fibonacci(n));
    assert(fibonacci(n + 5) == 5 * fibonacci(n + 1) + 3 * fibonacci(n));
    assert(fibonacci(n + 6) == 8 * fibonacci(n + 1) + 5 * fibonacci(n));
    assert(fibonacci(n + 7) == 13 * fibonacci(n + 1) + 8 * fibonacci(n));
    assert(fibonacci(n + 8) == 21 * fibonacci(n + 1) + 13 * fibonacci(n));
    assert(fibonacci(n + 9) == 34 * fibonacci(n + 1) + 21 * fibonacci(n));
}

/// The last Fibonacci number that fits in an `i64` has the index 92.
proof fn lemma_fits()
    ensures
        fibonacci(92) <= i64::MAX,
{
    assert(fibonacci(2) == 1) by {
        reveal_with_fuel(fibonacci, 2);
    }
    assert(fibonacci(3) == 2) by {
        reveal_with_fuel(fibonacci, 3);
    }
    lemma_ten_further(2);
    lemma_ten_further(12);
    lemma_ten_further(22);
    lemma_ten_further(32);
    lemma_ten_further(42);
    lemma_ten_further(52);
    lemma_ten_further(62);
    lemma_ten_further(72);
    lemma_ten_further(82);
}

proof fn lemma_fibonacci_grows(n: nat, m: nat)
    requires
        n <= m,
    ensures
        fibonacci(n) <= fibonacci(m),
    decreases m,
{
    if m >= 2 && n < m {
        lemma_fibonacci_grows(n, (m - 1) as nat);
    }
}

/// The Fibonacci number of that index. It fits in an `i64` up to the index 92.
pub fn fib(n: u32) -> (r: i64)
    requires
        n <= 92,
    ensures
        r == fibonacci(n as nat),
{
    if n == 0 {
        return 0;
    }
    proof {
        lemma_fits();
    }
    let mut a: i64 = 0;
    let mut b: i64 = 1;
    for i in 1..n
        invariant
            n <= 92,
            fibonacci(92) <= i64::MAX,
            a == fibonacci((i - 1) as nat),
            b == fibonacci(i as nat),
    {
        proof {
            lemma_fibonacci_grows((i + 1) as nat, 92);
        }
        let c: i64 = a + b;
        a = b;
        b = c;
    }
    b
}

/// Each Fibonacci number is the sum of the two before it.
pub proof fn law_fibonacci_recurrence(n: nat)
    ensures
        fibonacci(0) == 0,
        fibonacci(1) == 1,
        fibonacci(n + 2) == fibonacci(n + 1) + fibonacci(n),
{
}

/// The Fibonacci number of the index asked for, as far as the bound goes.
pub fn bounded_fib(n: i32) -> (r: i64)
    ensures
        r == fibonacci(clamped(n as int, 0, MAX_FIB_INDEX as int) as nat),
{
    fib(clamp(n, 0, MAX_FIB_INDEX) as u32)
}

/// How long to sleep, in milliseconds, when asked for `ms`.
pub fn sleep_ms(ms: i32) -> (r: i32)
    ensures
        r == clamped(ms as int, 0, MAX_SLEEP_MS as int),
{
    clamp(ms, 0, MAX_SLEEP_MS)
}

/// Headers with the names as they are.
pub open spec fn plain_headers(headers: Seq<(String, Vec<u8>)>) -> Seq<(Seq<char>, Seq<u8>)> {
    headers.map_values(|h: (String, Vec<u8>)| (h.0@, h.1@))
}

/// The value of a header is visible ASCII.
pub open spec fn echoes(value: Seq<u8>) -> bool {
    forall|i: int| 0 <= i < value.len() ==> request::is_visible_ascii(#[trigger] value[i])
}

/// The headers whose value is visible ASCII, the values as text.
pub open spec fn echoed(headers: Seq<(Seq<char>, Seq<u8>)>) -> Seq<(Seq<char>, Seq<char>)>
    decreases headers.len(),
{
    if headers.len() == 0 {
        Seq::empty()
    } else {
        let before = echoed(headers.drop_last());
        let (name, value) = headers.last();
        if echoes(value) {
            before.push((name, value.map_values(|b: u8| b as char)))
        } else {
            before
        }
    }
}

fn echo_value(value: &Vec<u8>) -> (r: Option<String>)
    ensures
        match r {
            Some(s) => echoes(value@) && s@ == value@.map_values(|b: u8| b as char),
            None => !echoes(value@),
        },
{
    let ghost chars = value@.map_values(|b: u8| b as char);
    let mut out = String::new();
    for i in 0..value.len()
        invariant
            chars == value@.map_values(|b: u8| b as char),
            out@ == chars.take(i as int),
            forall|j: int| 0 <= j < i ==> request::is_visible_ascii(#[trigger] value@[j]),
    {
        let b: u8 = value[i];
        if !((32 <= b && b < 127) || b == 9) {
            assert(!request::is_visible_ascii(value@[i as int]));
            return None;
        }
        out.push(b as char);
        assert(chars.take(i + 1) =~= chars.take(i as int).push(b as char));
    }
    assert(chars.take(value@.len() as int) =~= chars);
    Some(out)
}

proof fn lemma_echoed_grows(headers: Seq<(Seq<char>, Seq<u8>)>, n: int)
    requires
        0 <= n <= headers.len(),
    ensures
        echoed(headers.take(n)).len() <= echoed(headers).len(),
        echoed(headers.take(n)) == echoed(headers).take(echoed(headers.take(n)).len() as int),
    decreases headers.len(),
{
    if n == headers.len() {
        assert(headers.take(n) =~= headers);
        assert(echoed(headers).take(echoed(headers).len() as int) =~= echoed(headers));
    } else {
        let rest = headers.drop_last();
        assert(rest.take(n) =~= headers.take(n));
        lemma_echoed_grows(rest, n);
        let k = echoed(headers.take(n)).len() as int;
        assert(echoed(headers).take(k) =~= echoed(rest).take(k));
    }
}

/// The headers that are echoed: the first ones whose value is visible ASCII, as far as the bound
/// goes.
pub fn request_meta(headers: &Vec<(String, Vec<u8>)>) -> (r: Vec<(String, String)>)
    ensures
        ({
            let all = echoed(plain_headers(headers@));
            request::pairs_view(r@) == if all.len() <= MAX_ECHOED_HEADERS {
                all
            } else {
                all.take(MAX_ECHOED_HEADERS as int)
            }
        }),
{
    let ghost all = plain_headers(headers@);
    let mut out: Vec<(String, String)> = Vec::new();
    assert(request::pairs_view(out@) =~= echoed(all.take(0)));
    for i in 0..headers.len()
        invariant
            all == plain_headers(headers@),
            out@.len() < MAX_ECHOED_HEADERS,
            request::pairs_view(out@) == echoed(all.take(i as int)),
    {
        assert(all.take(i + 1).drop_last() =~= all.take(i as int));
        assert(all.take(i + 1).last() == all[i as int]);
        if let Some(value) = echo_value(&headers[i].1) {
            let ghost before = out@;
            let name = headers[i].0.clone();
            out.push((name, value));
            assert(request::pairs_view(out@) =~= request::pairs_view(before).push(
                (name@, value@),
            ));
            if out.len() == MAX_ECHOED_HEADERS {
                proof {
                    lemma_echoed_grows(all, i + 1);
                    assert(echoed(all).take(echoed(all).len() as int) =~= echoed(all));
                }
                return out;
            }
        }
    }
    assert(all.take(all.len() as int) =~= all);
    out
}

/// The query of a GET to the demo upstream, where it has one that is not blank.
pub open spec fn given_query(query: Option<Seq<char>>) -> Option<Seq<char>> {
    match query {
        Some(q) => if text::first_visible(q) is Some {
            Some(q)
        } else {
            None
        },
        None => None,
    }
}

/// The `query` parameter of a GET to the demo upstream. Without one, or with a blank one, there is
/// nothing to execute.
pub fn get_query(query: Option<String>) -> (r: Option<String>)
    ensures
        (match r {
            Some(q) => Some(q@),
            None => None,
        }) == given_query(
            match query {
                Some(q) => Some(q@),
                None => None,
            },
        ),
{
    match query {
        Some(q) => if text::find_visible(q.as_str()).is_some() {
            Some(q)
        } else {
            None
        },
        None => None,
    }
}

/// The number that decimal digits stand for.
pub open spec fn number_of(s: Seq<char>) -> int
    decreases s.len(),
{
    if s.len() == 0 {
        0
    } else {
        10 * number_of(s.drop_last()) + (s.last() as int - '0' as int)
    }
}

/// Digits read as the number that they were written for, are digits, and do not begin with a zero
/// unless that is all.
pub proof fn law_digits_read_back(n: nat)
    ensures
        digits(n).len() > 0,
        number_of(digits(n)) == n,
        forall|i: int| 0 <= i < digits(n).len() ==> '0' <= #[trigger] digits(n)[i] <= '9',
        n > 0 ==> digits(n)[0] != '0',
        n == 0 ==> digits(n).len() == 1,
    decreases n,
{
    let last = ('0' as int + n % 10) as char;
    if n < 10 {
        let one = digits(n);
        assert(one =~= seq![last]);
        assert(one.drop_last() =~= Seq::empty());
        assert(number_of(one.drop_last()) == 0);
    } else {
        law_digits_read_back(n / 10);
        assert(digits(n).drop_last() =~= digits(n / 10));
        assert(digits(n).last() == last);
        assert(digits(n)[0] == digits(n / 10)[0]);
        assert forall|i: int| 0 <= i < digits(n).len() implies '0' <= #[trigger] digits(n)[i]
            <= '9' by {
            if i < digits(n).len() - 1 {
                assert(digits(n)[i] == digits(n / 10)[i]);
            }
        }
    }
}

/// A negative number is a minus sign and the digits of its size, any other one just its digits.
pub proof fn law_signs_come_first(n: int)
    ensures
        n >= 0 ==> decimal(n) == digits(n as nat),
        n < 0 ==> decimal(n).len() > 0 && decimal(n)[0] == '-' && decimal(n).drop_first()
            == digits((-n) as nat),
{
    if n < 0 {
        assert(decimal(n).drop_first() =~= digits((-n) as nat));
    }
}

/// Each node of a chain has its number as id, name and depth, and the rest of the chain as its
/// child until the end is reached.
pub proof fn law_nodes_of_a_chain(cur: int, max: int)
    ensures
        chain(cur, max).id == cur,
        chain(cur, max).depth == cur,
        chain(cur, max).name == "node-"@ + decimal(cur),
        cur >= max ==> chain(cur, max).child is None,
        cur < max ==> chain(cur, max).child is Some && *chain(cur, max).child->0 == chain(
            cur + 1,
            max,
        ),
{
}

/// Item `i` of a list has its number as id and name, no depth and no child.
pub proof fn law_items_of_a_list(i: int)
    ensures
        item(i).id == i,
        item(i).name == "item-"@ + decimal(i),
        item(i).depth == 0,
        item(i).child is None,
{
}

/// A number within its bounds stays, and one outside becomes the bound that it is beyond.
pub proof fn law_bounds_hold(n: int, low: int, high: int)
    requires
        low <= high,
    ensures
        low <= clamped(n, low, high) <= high,
        low <= n <= high ==> clamped(n, low, high) == n,
        n < low ==> clamped(n, low, high) == low,
        n > high ==> clamped(n, low, high) == high,
{
}

/// The bounds on what the demo upstream does.
pub proof fn law_bounds_of_the_demo()
    ensures
        MAX_NESTED_DEPTH == 200,
        MAX_LIST_SIZE == 50_000,
        MAX_FIB_INDEX == 45,
        MAX_SLEEP_MS == 10_000,
        MAX_ECHOED_HEADERS == 100,
{
}

/// The headers that are echoed are those of the parts of a list, in order; one by itself is echoed
/// where all of its value is visible ASCII, byte for byte.
pub proof fn law_echoed_headers(
    a: Seq<(Seq<char>, Seq<u8>)>,
    b: Seq<(Seq<char>, Seq<u8>)>,
    name: Seq<char>,
    value: Seq<u8>,
)
    ensures
        echoed(a + b) == echoed(a) + echoed(b),
        echoes(value) <==> forall|i: int|
            0 <= i < value.len() ==> 0x20 <= #[trigger] value[i] <= 0x7E || value[i] == 0x9,
        !echoes(value) ==> echoed(seq![(name, value)]).len() == 0,
        echoes(value) ==> {
            let one = echoed(seq![(name, value)]);
            &&& one.len() == 1
            &&& one[0].0 == name
            &&& one[0].1.len() == value.len()
            &&& forall|i: int| 0 <= i < value.len() ==> one[0].1[i] == #[trigger] value[i] as char
        },
    decreases b.len(),
{
    let one = seq![(name, value)];
    assert(one.drop_last() =~= Seq::empty());
    assert(echoed(one.drop_last()).len() == 0);
    assert(one.last() == (name, value));
    if forall|i: int|
        0 <= i < value.len() ==> 0x20 <= #[trigger] value[i] <= 0x7E || value[i] == 0x9 {
        assert(echoes(value));
    }
    if echoes(value) {
        assert forall|i: int| 0 <= i < value.len() implies 0x20 <= #[trigger] value[i] <= 0x7E
            || value[i] == 0x9 by {
            assert(request::is_visible_ascii(value[i]));
        }
    }
    if b.len() == 0 {
        assert(a + b =~= a);
        assert(echoed(a) + echoed(b) =~= echoed(a));
    } else {
        assert((a + b).drop_last() =~= a + b.drop_last());
        law_echoed_headers(a, b.drop_last(), name, value);
        assert(echoed(a + b) =~= echoed(a) + echoed(b));
    }
}

/// A query is given where it has a visible character, and is then taken as it is.
pub proof fn law_given_queries(query: Seq<char>)
    ensures
        given_query(None) is None,
        given_query(Some(query)) is Some <==> exists|i: int|
            0 <= i < query.len() && !text::white_space(#[trigger] query[i]),
        given_query(Some(query)) is Some ==> given_query(Some(query)) == Some(query),
{
    text::law_first_visible_character(query);
}

/// The tree of a node has its number, its name, its depth and the tree of its child.
pub proof fn law_view_of_a_node(node: Node)
    ensures
        node@.id == node.id,
        node@.name == node.name@,
        node@.depth == node.depth,
        node.child is None <==> node@.child is None,
        node.child is Some ==> *node@.child->0 == (*node.child->0)@,
{
}

/// Headers are taken as they are and in order.
pub proof fn law_view_of_plain_headers(headers: Seq<(String, Vec<u8>)>)
    ensures
        plain_headers(headers).len() == headers.len(),
        forall|i: int|
            0 <= i < headers.len() ==> plain_headers(headers)[i] == (
                (#[trigger] headers[i]).0@,
                headers[i].1@,
            ),
{
}

} // verus!
