//! Verified operations on the characters of strings.
use vstd::prelude::*;
use vstd::string::StrSliceExecFns;

verus! {

broadcast use vstd::string::group_string_axioms;

/// The characters of `s`, in order.
pub fn chars_of(s: &str) -> (res: Vec<char>)
    ensures
        res@ == s@,
{
    let mut out: Vec<char> = Vec::new();
    for c in it: s.chars()
        invariant
            out@ == it.seq().take(it.index() as int),
    {
        out.push(c);
    }
    out
}

} // verus!

verus! {

/// Whether `needle` occurs in `hay` as a contiguous run.
pub open spec fn occurs_in(needle: Seq<char>, hay: Seq<char>) -> bool {
    exists|i: int| 0 <= i <= hay.len() - needle.len() && #[trigger] hay.subrange(i, i + needle.len()) == needle
}

/// Whether `needle` occurs in `hay` at position `at`.
pub fn occurs_at(hay: &Vec<char>, needle: &Vec<char>, at: usize) -> (res: bool)
    requires
        at + needle@.len() <= hay@.len(),
    ensures
        res == (hay@.subrange(at as int, at + needle@.len()) == needle@),
{
    let n = needle.len();
    let mut i: usize = 0;
    while i < n
        invariant
            n == needle@.len(),
            hay.len() == hay@.len(),
            at + n <= hay@.len(),
            0 <= i <= n,
            forall|j: int| 0 <= j < i ==> hay@[at + j] == needle@[j],
        decreases n - i,
    {
        if hay[at + i] != needle[i] {
            assert(hay@.subrange(at as int, at + n)[i as int] != needle@[i as int]);
            return false;
        }
        i = i + 1;
    }
    assert(hay@.subrange(at as int, at + n) =~= needle@);
    true
}

/// Whether `prefix` starts `s`.
pub fn chars_start_with(s: &Vec<char>, prefix: &Vec<char>) -> (res: bool)
    ensures
        res == prefix@.is_prefix_of(s@),
{
    if prefix.len() > s.len() {
        return false;
    }
    occurs_at(s, prefix, 0)
}

/// Whether `suffix` ends `s`.
pub fn chars_end_with(s: &Vec<char>, suffix: &Vec<char>) -> (res: bool)
    ensures
        res == suffix@.is_suffix_of(s@),
{
    if suffix.len() > s.len() {
        return false;
    }
    occurs_at(s, suffix, s.len() - suffix.len())
}

/// Whether `needle` occurs anywhere in `hay`.
pub fn chars_contain(hay: &Vec<char>, needle: &Vec<char>) -> (res: bool)
    ensures
        res == occurs_in(needle@, hay@),
{
    if needle.len() > hay.len() {
        return false;
    }
    let last = hay.len() - needle.len();
    let mut i: usize = 0;
    loop
        invariant
            last == hay@.len() - needle@.len(),
            0 <= i <= last,
            forall|j: int| 0 <= j < i ==> #[trigger] hay@.subrange(j, j + needle@.len()) != needle@,
        decreases last - i,
    {
        if occurs_at(hay, needle, i) {
            return true;
        }
        if i == last {
            return false;
        }
        i = i + 1;
    }
}

/// Whether the string `s` starts with `prefix`.
pub fn starts_with(s: &str, prefix: &str) -> (res: bool)
    ensures
        res == prefix@.is_prefix_of(s@),
{
    chars_start_with(&chars_of(s), &chars_of(prefix))
}

/// Whether the string `s` ends with `suffix`.
pub fn ends_with(s: &str, suffix: &str) -> (res: bool)
    ensures
        res == suffix@.is_suffix_of(s@),
{
    chars_end_with(&chars_of(s), &chars_of(suffix))
}

/// Whether `needle` occurs in the string `hay`.
pub fn contains(hay: &str, needle: &str) -> (res: bool)
    ensures
        res == occurs_in(needle@, hay@),
{
    chars_contain(&chars_of(hay), &chars_of(needle))
}

/// `s` without `prefix`, where `prefix` starts `s`.
pub fn strip_prefix<'a>(s: &'a str, prefix: &str) -> (res: Option<&'a str>)
    ensures
        res is Some <==> prefix@.is_prefix_of(s@),
        res matches Some(rest) ==> rest@ == s@.skip(prefix@.len() as int),
{
    let sc = chars_of(s);
    let pc = chars_of(prefix);
    if chars_start_with(&sc, &pc) {
        let rest = s.substring_char(pc.len(), sc.len());
        assert(s@.subrange(pc@.len() as int, sc@.len() as int) =~= s@.skip(prefix@.len() as int));
        Some(rest)
    } else {
        None
    }
}

/// Whether the strings `a` and `b` hold the same characters.
pub fn same_text(a: &str, b: &str) -> (res: bool)
    ensures
        res == (a@ == b@),
{
    let ac = chars_of(a);
    let bc = chars_of(b);
    if ac.len() != bc.len() {
        return false;
    }
    let res = occurs_at(&ac, &bc, 0);
    proof {
        assert(ac@.subrange(0, bc@.len() as int) =~= ac@);
    }
    res
}

/// `s` without every leading repetition of `pattern` (an empty pattern
/// removes nothing).
pub open spec fn spec_trim_start_matches(s: Seq<char>, pattern: Seq<char>) -> Seq<char>
    decreases s.len(),
{
    if pattern.len() > 0 && pattern.is_prefix_of(s) {
        spec_trim_start_matches(s.skip(pattern.len() as int), pattern)
    } else {
        s
    }
}

/// `s` without every leading repetition of `pattern`.
pub fn trim_start_matches<'a>(s: &'a str, pattern: &str) -> (res: &'a str)
    ensures
        res@ == spec_trim_start_matches(s@, pattern@),
{
    let sc = chars_of(s);
    let pc = chars_of(pattern);
    let n = sc.len();
    let p = pc.len();
    if p == 0 {
        return s;
    }
    let mut start: usize = 0;
    assert(s@.skip(0) =~= s@);
    while p <= n - start && occurs_at(&sc, &pc, start)
        invariant
            n == sc@.len(),
            p == pc@.len(),
            p > 0,
            start <= n,
            sc@ == s@,
            pc@ == pattern@,
            spec_trim_start_matches(s@, pattern@) == spec_trim_start_matches(s@.skip(start as int), pattern@),
        decreases n - start,
    {
        proof {
            let rest = s@.skip(start as int);
            assert(rest.subrange(0, p as int) =~= sc@.subrange(start as int, start + p));
            assert(pattern@.is_prefix_of(rest));
            assert(rest.skip(p as int) =~= s@.skip(start + p));
        }
        start = start + p;
    }
    proof {
        let rest = s@.skip(start as int);
        if pattern@.is_prefix_of(rest) {
            assert(rest.subrange(0, p as int) =~= sc@.subrange(start as int, start + p));
        }
        assert(s@.subrange(start as int, n as int) =~= rest);
    }
    s.substring_char(start, n)
}

/// The order of strings: character by character, by code point, a proper
/// prefix first.
pub open spec fn text_le(a: Seq<char>, b: Seq<char>) -> bool
    decreases a.len(),
{
    if a.len() == 0 {
        true
    } else if b.len() == 0 {
        false
    } else if a[0] != b[0] {
        a[0] < b[0]
    } else {
        text_le(a.drop_first(), b.drop_first())
    }
}

/// `text_le` as a relation.
pub open spec fn text_order() -> spec_fn(Seq<char>, Seq<char>) -> bool {
    |a: Seq<char>, b: Seq<char>| text_le(a, b)
}

proof fn lemma_text_le_reflexive(a: Seq<char>)
    ensures
        text_le(a, a),
    decreases a.len(),
{
    if a.len() > 0 {
        lemma_text_le_reflexive(a.drop_first());
    }
}

proof fn lemma_text_le_antisymmetric(a: Seq<char>, b: Seq<char>)
    requires
        text_le(a, b),
        text_le(b, a),
    ensures
        a == b,
    decreases a.len(),
{
    if a.len() > 0 && b.len() > 0 {
        if a[0] == b[0] {
            lemma_text_le_antisymmetric(a.drop_first(), b.drop_first());
            assert(a =~= seq![a[0]] + a.drop_first());
            assert(b =~= seq![b[0]] + b.drop_first());
        }
    } else {
        assert(a.len() == 0 && b.len() == 0);
        assert(a =~= b);
    }
}

proof fn lemma_text_le_transitive(a: Seq<char>, b: Seq<char>, c: Seq<char>)
    requires
        text_le(a, b),
        text_le(b, c),
    ensures
        text_le(a, c),
    decreases a.len(),
{
    if a.len() > 0 && b.len() > 0 && c.len() > 0 {
        if a[0] == b[0] && b[0] == c[0] {
            lemma_text_le_transitive(a.drop_first(), b.drop_first(), c.drop_first());
        }
    }
}

proof fn lemma_text_le_total(a: Seq<char>, b: Seq<char>)
    ensures
        text_le(a, b) || text_le(b, a),
    decreases a.len(),
{
    if a.len() > 0 && b.len() > 0 {
        if a[0] == b[0] {
            lemma_text_le_total(a.drop_first(), b.drop_first());
        } else {
        }
    }
}

/// `text_le` is a total order.
pub proof fn lemma_text_order_total()
    ensures
        vstd::relations::total_ordering(text_order()),
{
    assert forall|a: Seq<char>| #[trigger] text_order()(a, a) by {
        lemma_text_le_reflexive(a);
    }
    assert forall|a: Seq<char>, b: Seq<char>| #[trigger] text_order()(a, b) && #[trigger] text_order()(b, a) implies a == b by {
        lemma_text_le_antisymmetric(a, b);
    }
    assert forall|a: Seq<char>, b: Seq<char>, c: Seq<char>| #[trigger] text_order()(a, b) && #[trigger] text_order()(b, c) implies text_order()(a, c) by {
        lemma_text_le_transitive(a, b, c);
    }
    assert forall|a: Seq<char>, b: Seq<char>| #[trigger] text_order()(a, b) || #[trigger] text_order()(b, a) by {
        lemma_text_le_total(a, b);
    }
}

/// Whether `a` comes before or equals `b` in `text_le`.
pub fn chars_le(a: &Vec<char>, b: &Vec<char>) -> (res: bool)
    ensures
        res == text_le(a@, b@),
{
    let mut i: usize = 0;
    assert(a@.skip(0) =~= a@);
    assert(b@.skip(0) =~= b@);
    loop
        invariant
            i <= a@.len(),
            i <= b@.len(),
            text_le(a@, b@) == text_le(a@.skip(i as int), b@.skip(i as int)),
        decreases a@.len() - i,
    {
        if i == a.len() {
            return true;
        }
        if i == b.len() {
            return false;
        }
        let x = a[i];
        let y = b[i];
        if x != y {
            return x < y;
        }
        proof {
            assert(a@.skip(i as int).drop_first() =~= a@.skip(i + 1));
            assert(b@.skip(i as int).drop_first() =~= b@.skip(i + 1));
        }
        i = i + 1;
    }
}

} // verus!
