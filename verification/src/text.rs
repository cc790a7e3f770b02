//! String primitives shared by the rest of the crate: the order on version
//! strings, the description transforms, decimal rendering, line splitting and
//! joining.  Every contract is stated over `Seq<char>`, the view of a string.

use vstd::prelude::*;
use vstd::std_specs::iter::IteratorSpec;
use vstd::string::StringExecFns;
use itertools::Itertools;

verus! {

/// How one version string stands to another.
#[derive(Clone, Copy, Debug, PartialEq, Eq, Structural)]
pub enum Order {
    Less,
    Equal,
    Greater,
}

/// Lexicographic comparison of two strings by the code points of their
/// characters.  A proper prefix sorts before the strings it starts.
pub open spec fn order(a: Seq<char>, b: Seq<char>) -> Order
    decreases a.len(),
{
    if a.len() == 0 {
        if b.len() == 0 {
            Order::Equal
        } else {
            Order::Less
        }
    } else if b.len() == 0 {
        Order::Greater
    } else if a[0] < b[0] {
        Order::Less
    } else if a[0] > b[0] {
        Order::Greater
    } else {
        order(a.drop_first(), b.drop_first())
    }
}

/// `a` sorts strictly before `b`.
pub open spec fn precedes(a: Seq<char>, b: Seq<char>) -> bool {
    order(a, b) == Order::Less
}

/// Two strings compare `Equal` exactly when they are the same string.
pub proof fn lemma_order_equal(a: Seq<char>, b: Seq<char>)
    ensures
        order(a, b) == Order::Equal <==> a == b,
    decreases a.len(),
{
    if a.len() > 0 && b.len() > 0 {
        lemma_order_equal(a.drop_first(), b.drop_first());
        if a[0] == b[0] && a.drop_first() == b.drop_first() {
            assert(a =~= seq![a[0]] + a.drop_first());
            assert(b =~= seq![b[0]] + b.drop_first());
        }
    } else if a.len() == 0 && b.len() == 0 {
        assert(a =~= b);
    }
}

/// Swapping the operands swaps `Less` and `Greater`.
pub proof fn lemma_order_flip(a: Seq<char>, b: Seq<char>)
    ensures
        order(a, b) == Order::Less <==> order(b, a) == Order::Greater,
        order(a, b) == Order::Greater <==> order(b, a) == Order::Less,
        order(a, b) == Order::Equal <==> order(b, a) == Order::Equal,
    decreases a.len(),
{
    if a.len() > 0 && b.len() > 0 {
        lemma_order_flip(a.drop_first(), b.drop_first());
    }
}

/// `precedes` is transitive.
pub proof fn lemma_precedes_transitive(a: Seq<char>, b: Seq<char>, c: Seq<char>)
    requires
        precedes(a, b),
        precedes(b, c),
    ensures
        precedes(a, c),
    decreases a.len(),
{
    if a.len() > 0 && b.len() > 0 && c.len() > 0 {
        if a[0] == b[0] && b[0] == c[0] {
            lemma_precedes_transitive(a.drop_first(), b.drop_first(), c.drop_first());
        }
    }
}

/// Of two different strings exactly one precedes the other, and no string
/// precedes itself.
pub proof fn lemma_precedes_total(a: Seq<char>, b: Seq<char>)
    ensures
        a == b ==> !precedes(a, b) && !precedes(b, a),
        a != b ==> (precedes(a, b) <==> !precedes(b, a)),
{
    lemma_order_equal(a, b);
    lemma_order_flip(a, b);
}

/// Compares two strings character by character.
pub fn compare(a: &str, b: &str) -> (o: Order)
    ensures
        o == order(a@, b@),
{
    let mut left = a.chars();
    let mut right = b.chars();
    let mut o = Order::Equal;
    loop
        invariant_except_break
            left.obeys_prophetic_iter_laws(),
            right.obeys_prophetic_iter_laws(),
            left.decrease() is Some,
            order(left.remaining(), right.remaining()) == order(a@, b@),
        ensures
            o == order(a@, b@),
        decreases left.decrease()->0,
    {
        let x = left.next();
        let y = right.next();
        match (x, y) {
            (None, None) => {
                o = Order::Equal;
                break ;
            },
            (None, Some(_)) => {
                o = Order::Less;
                break ;
            },
            (Some(_), None) => {
                o = Order::Greater;
                break ;
            },
            (Some(p), Some(q)) => {
                if p < q {
                    o = Order::Less;
                    break ;
                } else if p > q {
                    o = Order::Greater;
                    break ;
                }
            },
        }
    }
    o
}

/// Whether two strings hold the same characters.
pub fn same_text(a: &str, b: &str) -> (r: bool)
    ensures
        r == (a@ == b@),
{
    proof {
        lemma_order_equal(a@, b@);
    }
    match compare(a, b) {
        Order::Equal => true,
        _ => false,
    }
}

/// Trusted: `String::push` appends one character, so the string afterwards is
/// the string before followed by `ch`.
pub assume_specification[ String::push ](s: &mut String, ch: char)
    ensures
        final(s)@ == old(s)@.push(ch),
;

/// The characters of `s[lo..hi]` as a new string.
pub fn text_of(chars: &Vec<char>, lo: usize, hi: usize) -> (s: String)
    requires
        lo <= hi <= chars.len(),
    ensures
        s@ == chars@.subrange(lo as int, hi as int),
{
    let mut s = String::new();
    let mut i: usize = lo;
    while i < hi
        invariant
            lo <= i <= hi <= chars.len(),
            s@ == chars@.subrange(lo as int, i as int),
        decreases hi - i,
    {
        s.push(chars[i]);
        i += 1;
        assert(chars@.subrange(lo as int, i as int) =~= chars@.subrange(lo as int, i - 1).push(
            chars@[i - 1],
        ));
    }
    s
}

/// The characters of a string, in order.
pub fn chars_of(s: &str) -> (v: Vec<char>)
    ensures
        v@ == s@,
{
    let mut v: Vec<char> = Vec::new();
    for c in it: s.chars()
        invariant
            v@ == s@.take(it.index() as int),
            it.seq() == s@,
    {
        v.push(c);
    }
    v
}

/// A string with every underscore turned into a space.
pub open spec fn humanized(s: Seq<char>) -> Seq<char> {
    Seq::new(
        s.len(),
        |i: int|
            if s[i] == '_' {
                ' '
            } else {
                s[i]
            },
    )
}

/// Replaces every underscore by a space.
pub fn to_human_string(s: &str) -> (r: String)
    ensures
        r@ == humanized(s@),
{
    let mut r = String::new();
    for c in it: s.chars()
        invariant
            r@ == humanized(s@.take(it.index() as int)),
            it.seq() == s@,
    {
        r.push(
            if c == '_' {
                ' '
            } else {
                c
            },
        );
        assert(r@ =~= humanized(s@.take(it.index() + 1)));
    }
    assert(s@.take(s@.len() as int) =~= s@);
    r
}

/// The uppercase mapping of a character, which may be longer than one
/// character.  It is the Unicode mapping that the standard library carries;
/// this crate gives it a name and does not spell it out.
pub uninterp spec fn uppercase_of(c: char) -> Seq<char>;

/// The uppercase mapping of `c` as a string.
///
/// Trusted: names the characters that `char::to_uppercase` yields, collected
/// in the order in which it yields them.
#[verifier::external_body]
pub(crate) fn uppercase(c: char) -> (r: String)
    ensures
        r@ == uppercase_of(c),
{
    c.to_uppercase().collect()
}

/// `s` with its first character replaced by `head`; the empty string stays
/// empty.
pub open spec fn with_head(s: Seq<char>, head: Seq<char>) -> Seq<char> {
    if s.len() == 0 {
        Seq::empty()
    } else {
        head + s.drop_first()
    }
}

/// A string with its first character replaced by its uppercase mapping.
pub open spec fn capitalized(s: Seq<char>) -> Seq<char> {
    if s.len() == 0 {
        Seq::empty()
    } else {
        with_head(s, uppercase_of(s[0]))
    }
}

/// Replaces the first character of `s` by the string `head`.  An empty `s`
/// gives an empty string whatever `head` is.
pub fn replace_head(s: &str, head: &str) -> (r: String)
    ensures
        r@ == with_head(s@, head@),
{
    let chars = chars_of(s);
    if chars.len() == 0 {
        return String::new();
    }
    let mut r = String::new();
    r.append(head);
    let mut i: usize = 1;
    while i < chars.len()
        invariant
            1 <= i <= chars.len(),
            r@ == head@ + chars@.subrange(1, i as int),
        decreases chars.len() - i,
    {
        r.push(chars[i]);
        i += 1;
        assert(chars@.subrange(1, i as int) =~= chars@.subrange(1, i - 1).push(chars@[i - 1]));
    }
    assert(chars@.subrange(1, chars@.len() as int) =~= chars@.drop_first());
    r
}

/// Uppercases the first character of `s` and keeps the rest.
pub fn capitalize(s: &str) -> (r: String)
    ensures
        r@ == capitalized(s@),
{
    let mut it = s.chars();
    match it.next() {
        None => String::new(),
        Some(first) => {
            let head = uppercase(first);
            replace_head(s, head.as_str())
        },
    }
}

/// Underscores become spaces, then the first character is uppercased.
pub fn to_capitalized_human_string(s: &str) -> (r: String)
    ensures
        r@ == capitalized(humanized(s@)),
{
    let human = to_human_string(s);
    capitalize(human.as_str())
}

/// The character that writes the digit `d`.
pub open spec fn digit(d: nat) -> char {
    if d == 0 {
        '0'
    } else if d == 1 {
        '1'
    } else if d == 2 {
        '2'
    } else if d == 3 {
        '3'
    } else if d == 4 {
        '4'
    } else if d == 5 {
        '5'
    } else if d == 6 {
        '6'
    } else if d == 7 {
        '7'
    } else if d == 8 {
        '8'
    } else {
        '9'
    }
}

/// The decimal numeral of `n`, without sign or leading zeros.
pub open spec fn decimal(n: nat) -> Seq<char>
    decreases n,
{
    if n < 10 {
        seq![digit(n)]
    } else {
        decimal(n / 10).push(digit(n % 10))
    }
}

fn digit_char(d: usize) -> (c: char)
    requires
        d < 10,
    ensures
        c == digit(d as nat),
{
    match d {
        0 => '0',
        1 => '1',
        2 => '2',
        3 => '3',
        4 => '4',
        5 => '5',
        6 => '6',
        7 => '7',
        8 => '8',
        _ => '9',
    }
}

fn push_decimal(s: &mut String, n: usize)
    ensures
        final(s)@ == old(s)@ + decimal(n as nat),
    decreases n,
{
    if n >= 10 {
        push_decimal(s, n / 10);
    }
    s.push(digit_char(n % 10));
    assert(s@ =~= old(s)@ + decimal(n as nat));
}

/// Writes a number in decimal.
pub fn decimal_string(n: usize) -> (r: String)
    ensures
        r@ == decimal(n as nat),
{
    let mut r = String::new();
    push_decimal(&mut r, n);
    assert(r@ =~= decimal(n as nat));
    r
}

/// How many characters stand before the first line feed of `s`; the length of
/// `s` where it has none.
pub open spec fn line_end(s: Seq<char>) -> int
    decreases s.len(),
{
    if s.len() == 0 || s[0] == '\n' {
        0
    } else {
        1 + line_end(s.drop_first())
    }
}

/// A line without the carriage return that ends it, if one does.
pub open spec fn without_cr(line: Seq<char>) -> Seq<char> {
    if line.len() > 0 && line.last() == '\r' {
        line.drop_last()
    } else {
        line
    }
}

/// The lines of a text.  A line ends at a line feed; the line feed, and a
/// carriage return directly before it, belong to no line.  What follows the
/// last line feed is a line of its own unless it is empty.
pub open spec fn lines_of(s: Seq<char>) -> Seq<Seq<char>>
    decreases s.len(),
{
    if s.len() == 0 {
        Seq::empty()
    } else {
        let n = line_end(s);
        if 0 <= n < s.len() {
            seq![without_cr(s.take(n))] + lines_of(s.skip(n + 1))
        } else {
            seq![s]
        }
    }
}

proof fn lemma_line_end(s: Seq<char>, n: int)
    requires
        0 <= n <= s.len(),
        forall|j: int| 0 <= j < n ==> s[j] != '\n',
        n < s.len() ==> s[n] == '\n',
    ensures
        line_end(s) == n,
    decreases s.len(),
{
    if n > 0 {
        lemma_line_end(s.drop_first(), n - 1);
    }
}

/// Splits a text into its lines.
pub fn lines(s: &str) -> (out: Vec<String>)
    ensures
        out.deep_view() == lines_of(s@),
{
    let chars = chars_of(s);
    let mut out: Vec<String> = Vec::new();
    let mut start: usize = 0;
    assert(chars@.skip(0) =~= chars@);
    assert(out.deep_view() + lines_of(chars@) =~= lines_of(chars@));
    while start < chars.len()
        invariant
            start <= chars.len(),
            out.deep_view() + lines_of(chars@.skip(start as int)) == lines_of(chars@),
        decreases chars.len() - start,
    {
        let ghost rest = chars@.skip(start as int);
        let ghost before = out.deep_view();
        let mut end: usize = start;
        while end < chars.len() && chars[end] != '\n'
            invariant
                start <= end <= chars.len(),
                forall|j: int| start <= j < end ==> chars@[j] != '\n',
            decreases chars.len() - end,
        {
            end += 1;
        }
        proof {
            lemma_line_end(rest, end - start);
        }
        if end == chars.len() {
            let line = text_of(&chars, start, end);
            assert(line@ =~= rest);
            out.push(line);
            assert(lines_of(chars@.skip(end as int)) =~= Seq::empty());
            assert(out.deep_view() =~= before + seq![rest]);
            start = end;
        } else {
            let stop: usize = if end > start && chars[end - 1] == '\r' {
                end - 1
            } else {
                end
            };
            let line = text_of(&chars, start, stop);
            assert(line@ =~= without_cr(rest.take(end - start)));
            out.push(line);
            assert(rest.skip(end - start + 1) =~= chars@.skip(end + 1));
            assert(out.deep_view() =~= before + seq![without_cr(rest.take(end - start))]);
            start = end + 1;
        }
    }
    assert(out.deep_view() =~= lines_of(chars@));
    out
}

/// The items written one after another with `sep` between neighbours.
pub open spec fn joined(items: Seq<Seq<char>>, sep: Seq<char>) -> Seq<char>
    decreases items.len(),
{
    if items.len() == 0 {
        Seq::empty()
    } else if items.len() == 1 {
        items[0]
    } else {
        joined(items.drop_last(), sep) + sep + items.last()
    }
}

/// Joins strings with a separator.
///
/// Trusted: `Itertools::join` on the strings of `items`, first to last: an
/// empty list gives the empty string; otherwise the first item is written,
/// then for every further item the separator and the item.
#[verifier::external_body]
pub(crate) fn join(items: &Vec<String>, sep: &str) -> (r: String)
    ensures
        r@ == joined(items.deep_view(), sep@),
{
    items.iter().join(sep)
}

} // verus!
