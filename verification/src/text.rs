//! Character-level text operations: conversion between strings and
//! character vectors, and literal substring replacement.

use vstd::prelude::*;
use vstd::std_specs::iter::IteratorSpec;

verus! {

/// `String::push` appends the given character to the end of the string.
pub assume_specification[ String::push ](s: &mut String, c: char)
    ensures
        final(s)@ == old(s)@.push(c),
;

/// Whether `pattern` stands in `text` at position `at`.
pub open spec fn occurs_at(text: Seq<char>, pattern: Seq<char>, at: int) -> bool {
    &&& 0 <= at
    &&& at + pattern.len() <= text.len()
    &&& text.subrange(at, at + pattern.len()) == pattern
}

/// `text` with every occurrence of `pattern` replaced by `value`.
///
/// Occurrences are found from left to right and do not overlap: after one is
/// replaced, the search goes on behind it, and the inserted `value` is not
/// searched again. An empty `pattern` occurs nowhere.
pub open spec fn replaced(text: Seq<char>, pattern: Seq<char>, value: Seq<char>) -> Seq<char>
    decreases text.len(),
{
    if pattern.len() == 0 || text.len() < pattern.len() {
        text
    } else if occurs_at(text, pattern, 0) {
        value + replaced(text.subrange(pattern.len() as int, text.len() as int), pattern, value)
    } else {
        seq![text[0]] + replaced(text.subrange(1, text.len() as int), pattern, value)
    }
}

/// A text in which `pattern` occurs nowhere is left as it is.
pub proof fn lemma_replaced_without_occurrence(
    text: Seq<char>,
    pattern: Seq<char>,
    value: Seq<char>,
)
    requires
        forall|at: int| !occurs_at(text, pattern, at),
    ensures
        replaced(text, pattern, value) == text,
    decreases text.len(),
{
    if pattern.len() == 0 || text.len() < pattern.len() {
    } else {
        let rest = text.subrange(1, text.len() as int);
        assert forall|at: int| !occurs_at(rest, pattern, at) by {
            if occurs_at(rest, pattern, at) {
                assert(rest.subrange(at, at + pattern.len()) == text.subrange(
                    at + 1,
                    at + 1 + pattern.len(),
                ));
                assert(occurs_at(text, pattern, at + 1));
            }
        }
        lemma_replaced_without_occurrence(rest, pattern, value);
        assert(!occurs_at(text, pattern, 0));
        assert(seq![text[0]] + rest == text);
    }
}

/// The characters of `s`, in order.
pub fn to_chars(s: &str) -> (v: Vec<char>)
    ensures
        v@ == s@,
{
    broadcast use vstd::string::group_string_axioms;

    let mut v: Vec<char> = Vec::new();
    let mut it = s.chars();
    loop
        invariant
            it.decrease() is Some,
            v@ + it.remaining() == s@,
        ensures
            v@ == s@,
        decreases it.decrease()->0,
    {
        match it.next() {
            Some(c) => {
                v.push(c);
            },
            None => {
                break ;
            },
        }
    }
    v
}

/// The string made of the characters of `v`, in order.
pub fn to_text(v: &Vec<char>) -> (s: String)
    ensures
        s@ == v@,
{
    let mut s = String::new();
    let mut i: usize = 0;
    while i < v.len()
        invariant
            i <= v.len(),
            s@ == v@.take(i as int),
        decreases v.len() - i,
    {
        s.push(v[i]);
        i += 1;
        assert(v@.take(i as int) == v@.take(i - 1).push(v@[i - 1]));
    }
    assert(v@.take(v.len() as int) == v@);
    s
}

/// Whether `pattern` stands in `text` at position `at`.
pub fn starts_at(text: &Vec<char>, pattern: &Vec<char>, at: usize) -> (found: bool)
    ensures
        found == occurs_at(text@, pattern@, at as int),
{
    if pattern.len() > text.len() || at > text.len() - pattern.len() {
        return false;
    }
    let ghost window = text@.subrange(at as int, at + pattern.len());
    let mut k: usize = 0;
    while k < pattern.len()
        invariant
            k <= pattern.len(),
            at + pattern.len() <= text.len(),
            window == text@.subrange(at as int, at + pattern.len()),
            forall|j: int| 0 <= j < k ==> window[j] == pattern@[j],
        decreases pattern.len() - k,
    {
        if text[at + k] != pattern[k] {
            assert(window[k as int] != pattern@[k as int]);
            return false;
        }
        k += 1;
    }
    assert(window =~= pattern@);
    true
}

/// Appends the characters of `tail` to `out`.
fn append_chars(out: &mut Vec<char>, tail: &Vec<char>)
    ensures
        final(out)@ == old(out)@ + tail@,
{
    let mut k: usize = 0;
    while k < tail.len()
        invariant
            k <= tail.len(),
            out@ == old(out)@ + tail@.take(k as int),
        decreases tail.len() - k,
    {
        out.push(tail[k]);
        k += 1;
        assert(tail@.take(k as int) == tail@.take(k - 1).push(tail@[k - 1]));
    }
    assert(tail@.take(tail.len() as int) == tail@);
}

/// Replaces every occurrence of `pattern` in `text` by `value`.
pub fn replace_chars(text: &Vec<char>, pattern: &Vec<char>, value: &Vec<char>) -> (out: Vec<char>)
    ensures
        out@ == replaced(text@, pattern@, value@),
{
    let n = text.len();
    let m = pattern.len();
    let mut out: Vec<char> = Vec::new();
    let mut i: usize = 0;
    assert(text@.subrange(0, n as int) == text@);
    assert(out@ + text@ == text@);
    if m > 0 {
        while m <= n - i
            invariant
                i <= n,
                n == text.len(),
                m == pattern.len(),
                m > 0,
                out@ + replaced(text@.subrange(i as int, n as int), pattern@, value@) == replaced(
                    text@,
                    pattern@,
                    value@,
                ),
            decreases n - i,
        {
            let ghost rest = text@.subrange(i as int, n as int);
            if starts_at(text, pattern, i) {
                assert(rest.subrange(0, m as int) == text@.subrange(i as int, i + m));
                assert(rest.subrange(m as int, rest.len() as int) == text@.subrange(
                    i + m,
                    n as int,
                ));
                append_chars(&mut out, value);
                i += m;
            } else {
                assert(rest.subrange(0, m as int) == text@.subrange(i as int, i + m));
                assert(rest.subrange(1, rest.len() as int) == text@.subrange(i + 1, n as int));
                out.push(text[i]);
                i += 1;
            }
        }
    }
    while i < n
        invariant
            i <= n,
            n == text.len(),
            m == pattern.len(),
            m == 0 || n - i < m,
            out@ + text@.subrange(i as int, n as int) == replaced(text@, pattern@, value@),
        decreases n - i,
    {
        assert(text@.subrange(i as int, n as int) == seq![text@[i as int]] + text@.subrange(
            i + 1,
            n as int,
        ));
        out.push(text[i]);
        i += 1;
    }
    assert(text@.subrange(n as int, n as int) == Seq::<char>::empty());
    out
}

/// Replaces every occurrence of `pattern` in `text` by `value`.
pub fn replace_all(text: &str, pattern: &str, value: &str) -> (out: String)
    ensures
        out@ == replaced(text@, pattern@, value@),
{
    let chars = replace_chars(&to_chars(text), &to_chars(pattern), &to_chars(value));
    to_text(&chars)
}

} // verus!
