//! Executable character and string helpers: conversion between `String`
//! and character vectors, equality, slicing, and separator splitting, each
//! proved against the sequence-level functions of `text`.
use vstd::prelude::*;
use vstd::string::*;

use crate::text::{find_sep, lemma_find_sep_absent, lemma_find_sep_concat, lemma_find_sep_run,
    split_on};

verus! {

/// The views of a sequence of character vectors.
pub open spec fn views_of(vs: Seq<Vec<char>>) -> Seq<Seq<char>> {
    vs.map_values(|x: Vec<char>| x@)
}

/// Relies on std's `String::push`: appends exactly the one character.
#[verifier::external_body]
pub(crate) fn push_char(s: &mut String, c: char)
    ensures
        final(s)@ == old(s)@.push(c),
{
    s.push(c)
}

/// The characters of `s`, in order.
pub(crate) fn chars_of(s: &str) -> (r: Vec<char>)
    ensures
        r@ == s@,
{
    let n = s.unicode_len();
    let mut r: Vec<char> = Vec::new();
    let mut i: usize = 0;
    while i < n
        invariant
            n == s@.len(),
            i <= n,
            r@ == s@.take(i as int),
        decreases n - i,
    {
        let c = s.get_char(i);
        r.push(c);
        proof {
            assert(s@.take(i + 1) =~= s@.take(i as int).push(s@[i as int]));
        }
        i += 1;
    }
    proof {
        assert(s@.take(n as int) =~= s@);
    }
    r
}

/// The string holding exactly the characters of `v`.
pub(crate) fn string_of(v: &Vec<char>) -> (r: String)
    ensures
        r@ == v@,
{
    let mut r = String::new();
    let mut i: usize = 0;
    while i < v.len()
        invariant
            i <= v.len(),
            r@ == v@.take(i as int),
        decreases v.len() - i,
    {
        push_char(&mut r, v[i]);
        proof {
            assert(v@.take(i + 1) =~= v@.take(i as int).push(v@[i as int]));
        }
        i += 1;
    }
    proof {
        assert(v@.take(v.len() as int) =~= v@);
    }
    r
}

/// Whether two character vectors hold the same characters.
pub(crate) fn eq_chars(a: &Vec<char>, b: &Vec<char>) -> (r: bool)
    ensures
        r == (a@ == b@),
{
    if a.len() != b.len() {
        return false;
    }
    let mut i: usize = 0;
    while i < a.len()
        invariant
            a.len() == b.len(),
            i <= a.len(),
            forall|k: int| 0 <= k < i ==> a@[k] == b@[k],
        decreases a.len() - i,
    {
        if a[i] != b[i] {
            return false;
        }
        i += 1;
    }
    proof {
        assert(a@ =~= b@);
    }
    true
}

/// The characters of `v` from `a` up to `b`.
pub(crate) fn sub_chars(v: &Vec<char>, a: usize, b: usize) -> (r: Vec<char>)
    requires
        a <= b <= v@.len(),
    ensures
        r@ == v@.subrange(a as int, b as int),
{
    let mut r: Vec<char> = Vec::new();
    let mut i: usize = a;
    while i < b
        invariant
            a <= i <= b <= v@.len(),
            r@ == v@.subrange(a as int, i as int),
        decreases b - i,
    {
        r.push(v[i]);
        proof {
            assert(v@.subrange(a as int, i + 1) =~= v@.subrange(a as int, i as int).push(
                v@[i as int],
            ));
        }
        i += 1;
    }
    r
}

/// Splitting distributes over a separator that closes a separator-free field.
proof fn lemma_split_step(c: Seq<char>, rest: Seq<char>, sep: char)
    requires
        forall|k: int| 0 <= k < c.len() ==> c[k] != sep,
    ensures
        split_on(c + seq![sep] + rest, sep) == seq![c] + split_on(rest, sep),
{
    let s = c + seq![sep] + rest;
    assert(s =~= c + (seq![sep] + rest));
    lemma_find_sep_concat(c, seq![sep] + rest, sep);
    let i = find_sep(s, sep) as int;
    assert(i == c.len());
    assert(s.take(i) =~= c);
    assert(s.skip(i + 1) =~= rest);
}

/// A separator-free text is one single field.
proof fn lemma_split_whole(c: Seq<char>, sep: char)
    requires
        forall|k: int| 0 <= k < c.len() ==> c[k] != sep,
    ensures
        split_on(c, sep) == seq![c],
{
    lemma_find_sep_absent(c, sep);
}

/// The position of the first `sep` at or after `from`, or the length of `v`.
pub(crate) fn find_from(v: &Vec<char>, from: usize, sep: char) -> (i: usize)
    requires
        from <= v@.len(),
    ensures
        from <= i <= v@.len(),
        i - from == find_sep(v@.skip(from as int), sep),
{
    let ghost t = v@.skip(from as int);
    let mut j: usize = from;
    while j < v.len() && v[j] != sep
        invariant
            from <= j <= v@.len(),
            t == v@.skip(from as int),
            forall|k: int| 0 <= k < j - from ==> t[k] != sep,
        decreases v@.len() - j,
    {
        proof {
            assert(t[j - from] == v@[j as int]);
        }
        j += 1;
    }
    proof {
        if j < v@.len() {
            assert(t[j - from] == v@[j as int]);
        }
        lemma_find_sep_run(t, sep, j - from);
    }
    j
}

/// The fields of `v`, split on every occurrence of `sep`.
pub(crate) fn split_chars(v: &Vec<char>, sep: char) -> (r: Vec<Vec<char>>)
    ensures
        views_of(r@) == split_on(v@, sep),
{
    let mut done: Vec<Vec<char>> = Vec::new();
    let mut cur: Vec<char> = Vec::new();
    let mut i: usize = 0;
    proof {
        assert(cur@ + v@.skip(0) =~= v@);
        assert(views_of(done@) + split_on(v@, sep) =~= split_on(v@, sep));
    }
    while i < v.len()
        invariant
            i <= v.len(),
            forall|k: int| 0 <= k < cur@.len() ==> cur@[k] != sep,
            split_on(v@, sep) == views_of(done@) + split_on(cur@ + v@.skip(i as int), sep),
        decreases v.len() - i,
    {
        let c = v[i];
        if c == sep {
            proof {
                assert(v@.skip(i as int) =~= seq![sep] + v@.skip(i + 1));
                assert(cur@ + v@.skip(i as int) =~= cur@ + seq![sep] + v@.skip(i + 1));
                lemma_split_step(cur@, v@.skip(i + 1), sep);
            }
            let ghost prev = views_of(done@);
            let ghost cv = cur@;
            done.push(cur);
            cur = Vec::new();
            proof {
                assert(views_of(done@) =~= prev.push(cv));
                assert(cur@ + v@.skip(i + 1) =~= v@.skip(i + 1));
                assert(views_of(done@) + split_on(v@.skip(i + 1), sep) =~= prev + (seq![cv]
                    + split_on(v@.skip(i + 1), sep)));
            }
        } else {
            proof {
                assert(v@.skip(i as int) =~= seq![c] + v@.skip(i + 1));
                assert(cur@.push(c) + v@.skip(i + 1) =~= cur@ + v@.skip(i as int));
            }
            cur.push(c);
        }
        i += 1;
    }
    proof {
        assert(v@.skip(v.len() as int) =~= Seq::<char>::empty());
        assert(cur@ + v@.skip(v.len() as int) =~= cur@);
        lemma_split_whole(cur@, sep);
    }
    let ghost prev = views_of(done@);
    let ghost cv = cur@;
    done.push(cur);
    proof {
        assert(views_of(done@) =~= prev.push(cv));
        assert(prev.push(cv) =~= prev + seq![cv]);
    }
    done
}

} // verus!
