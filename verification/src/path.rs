//! Request paths and the segments they are made of.
//!
//! A path is read as a run of segments parted by `/`. Empty segments carry no
//! meaning: `/a//b/` names the same place as `/a/b`, and `/`, like the empty
//! path, names the root.

use vstd::prelude::*;

verus! {

/// How many characters of `s` stand before its first `/`: the whole length
/// where `s` holds no slash.
pub open spec fn first_slash(s: Seq<char>) -> nat
    decreases s.len(),
{
    if s.len() == 0 || s[0] == '/' {
        0
    } else {
        1 + first_slash(s.drop_first())
    }
}

/// The segments of a path: its maximal slash-free runs, in order, none empty.
pub open spec fn segments_of(s: Seq<char>) -> Seq<Seq<char>>
    decreases s.len(),
{
    if s.len() == 0 {
        Seq::empty()
    } else {
        let n = first_slash(s);
        if 0 < n <= s.len() {
            seq![s.take(n as int)] + segments_of(s.skip(n as int))
        } else {
            segments_of(s.drop_first())
        }
    }
}

/// No character of `s` is a slash.
pub open spec fn slash_free(s: Seq<char>) -> bool {
    forall|i: int| 0 <= i < s.len() ==> s[i] != '/'
}

/// The one segment that a slash-free run makes, or none where it is empty.
pub open spec fn run_segment(run: Seq<char>) -> Seq<Seq<char>> {
    if run.len() > 0 {
        seq![run]
    } else {
        Seq::empty()
    }
}

/// The character contents of a list of strings.
pub open spec fn texts(v: Seq<String>) -> Seq<Seq<char>> {
    Seq::new(v.len(), |i: int| v[i]@)
}

/// A slash-free run followed by a slash ends at that slash.
pub proof fn lemma_first_slash_after_run(run: Seq<char>, rest: Seq<char>)
    requires
        slash_free(run),
    ensures
        first_slash(run + seq!['/'] + rest) == run.len(),
        first_slash(run) == run.len(),
    decreases run.len(),
{
    let whole = run + seq!['/'] + rest;
    if run.len() == 0 {
        assert(whole[0] == '/');
    } else {
        let tail = run.drop_first();
        assert(slash_free(tail)) by {
            assert forall|i: int| 0 <= i < tail.len() implies tail[i] != '/' by {
                assert(tail[i] == run[i + 1]);
            }
        }
        lemma_first_slash_after_run(tail, rest);
        assert(whole[0] == run[0]);
        assert(whole.drop_first() =~= tail + seq!['/'] + rest);
    }
}

/// Splitting commutes with a slash: what stands before it gives at most one
/// segment, and the rest is split on its own.
pub proof fn lemma_segments_at_slash(run: Seq<char>, rest: Seq<char>)
    requires
        slash_free(run),
    ensures
        segments_of(run + seq!['/'] + rest) == run_segment(run) + segments_of(rest),
{
    let whole = run + seq!['/'] + rest;
    lemma_first_slash_after_run(run, rest);
    if run.len() == 0 {
        assert(whole[0] == '/');
        assert(whole.drop_first() =~= rest);
        assert(segments_of(whole) == segments_of(whole.drop_first()));
        assert(run_segment(run) + segments_of(rest) =~= segments_of(rest));
    } else {
        let n = run.len() as int;
        let after = seq!['/'] + rest;
        assert(whole.take(n) =~= run);
        assert(whole.skip(n) =~= after);
        assert(segments_of(whole) == seq![run] + segments_of(after));
        assert(after[0] == '/');
        assert(after.drop_first() =~= rest);
        assert(segments_of(after) == segments_of(after.drop_first()));
    }
}

/// A slash-free run is its own only segment.
pub proof fn lemma_segments_of_run(run: Seq<char>)
    requires
        slash_free(run),
    ensures
        segments_of(run) == run_segment(run),
{
    lemma_first_slash_after_run(run, Seq::empty());
    if run.len() > 0 {
        let n = run.len() as int;
        assert(run.take(n) =~= run);
        assert(run.skip(n).len() == 0);
        assert(segments_of(run) == seq![run] + segments_of(run.skip(n)));
        assert(seq![run] + Seq::<Seq<char>>::empty() =~= seq![run]);
    }
}

/// `String::push` of the standard library: the character is appended at the
/// end, and nothing else changes.
pub assume_specification[ String::push ](s: &mut String, c: char)
    ensures
        final(s)@ == old(s)@.push(c),
;

/// Splits a path into its segments.
pub fn split_path(path: &str) -> (segs: Vec<String>)
    ensures
        texts(segs@) == segments_of(path@),
{
    let mut segs: Vec<String> = Vec::new();
    let mut cur = String::new();
    proof {
        assert(cur@ + path@.skip(0) =~= path@);
        assert(texts(segs@) + segments_of(path@) =~= segments_of(path@));
    }
    for c in it: path.chars()
        invariant
            it.seq() == path@,
            slash_free(cur@),
            segments_of(path@) == texts(segs@) + segments_of(cur@ + path@.skip(it.index() as int)),
    {
        let ghost k = it.index() as int;
        let ghost before = cur@;
        let ghost done = texts(segs@);
        assert(path@.skip(k) =~= seq![c] + path@.skip(k + 1));
        if c == '/' {
            proof {
                assert(before + path@.skip(k) =~= before + seq!['/'] + path@.skip(k + 1));
                lemma_segments_at_slash(before, path@.skip(k + 1));
            }
            if !cur.as_str().is_empty() {
                segs.push(cur);
                assert(texts(segs@) =~= done + run_segment(before));
            } else {
                assert(before.len() == 0);
                assert(texts(segs@) =~= done + run_segment(before));
            }
            cur = String::new();
            assert(cur@ + path@.skip(k + 1) =~= path@.skip(k + 1));
        } else {
            cur.push(c);
            assert(cur@ + path@.skip(k + 1) =~= before + path@.skip(k));
        }
    }
    proof {
        assert(cur@ + path@.skip(path@.len() as int) =~= cur@);
        lemma_segments_of_run(cur@);
    }
    let ghost done = texts(segs@);
    let ghost last = cur@;
    if !cur.as_str().is_empty() {
        segs.push(cur);
    }
    assert(texts(segs@) =~= done + run_segment(last));
    segs
}

} // verus!
