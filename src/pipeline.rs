//! What each worker of the parallel walk decides for an entry, and how a
//! selected path becomes a line of output.
use vstd::prelude::*;
use crate::patterns::{selects, PatternSet};

verus! {

/// An entry handed out by the directory walker: its path's bytes, and whether
/// it is a regular file.
pub struct WalkEntry {
    pub path: Vec<u8>,
    pub is_file: bool,
}

impl View for WalkEntry {
    type V = (Seq<u8>, bool);

    open spec fn view(&self) -> (Seq<u8>, bool) {
        (self.path@, self.is_file)
    }
}

/// What a worker tells the walker after handing over a path.
#[derive(Clone, Copy, Debug, PartialEq, Eq, Structural)]
pub enum WalkControl {
    /// Keep walking.
    Continue,
    /// The output side is gone: stop asking for work.
    Quit,
}

/// `s` without its leading `/` bytes.
pub open spec fn skip_slashes(s: Seq<u8>) -> Seq<u8>
    decreases s.len(),
{
    if s.len() > 0 && s[0] == 47u8 {
        skip_slashes(s.drop_first())
    } else {
        s
    }
}

/// `path` starts with `./`.
pub open spec fn has_dot_slash(path: Seq<u8>) -> bool {
    path.len() >= 2 && path[0] == 46u8 && path[1] == 47u8
}

/// The path as it is matched and printed: where `strip` is set, a leading
/// `./` (and the separators after it) is removed.
pub open spec fn shown_path(path: Seq<u8>, strip: bool) -> Seq<u8> {
    if strip && has_dot_slash(path) {
        skip_slashes(path.subrange(2, path.len() as int))
    } else {
        path
    }
}

/// The entry is printed: it is a regular file whose shown path is selected.
pub open spec fn emits(
    accept: Seq<Seq<char>>,
    reject: Seq<Seq<char>>,
    e: (Seq<u8>, bool),
    strip: bool,
) -> bool {
    e.1 && selects(accept, reject, shown_path(e.0, strip))
}

/// The shown paths of the entries of `es` that are printed, in order.
pub open spec fn selected(
    accept: Seq<Seq<char>>,
    reject: Seq<Seq<char>>,
    es: Seq<(Seq<u8>, bool)>,
    strip: bool,
) -> Seq<Seq<u8>>
    decreases es.len(),
{
    if es.len() == 0 {
        seq![]
    } else {
        let prev = selected(accept, reject, es.drop_last(), strip);
        if emits(accept, reject, es.last(), strip) {
            prev.push(shown_path(es.last().0, strip))
        } else {
            prev
        }
    }
}

proof fn lemma_skip_slashes_from(s: Seq<u8>, k: int)
    requires
        0 <= k <= s.len(),
        forall|j: int| 0 <= j < k ==> s[j] == 47u8,
    ensures
        skip_slashes(s) == skip_slashes(s.subrange(k, s.len() as int)),
    decreases k,
{
    if k > 0 {
        assert(s.drop_first() == s.subrange(1, s.len() as int));
        let t = s.drop_first();
        assert(t.subrange(k - 1, t.len() as int) == s.subrange(k, s.len() as int));
        lemma_skip_slashes_from(t, k - 1);
    } else {
        assert(s.subrange(0, s.len() as int) == s);
    }
}

/// Where the shown part of `path` starts.
pub fn shown_start(path: &[u8], strip: bool) -> (r: usize)
    ensures
        r <= path@.len(),
        path@.subrange(r as int, path@.len() as int) == shown_path(path@, strip),
{
    let n = path.len();
    if !(strip && n >= 2 && path[0] == 46u8 && path[1] == 47u8) {
        assert(path@.subrange(0, n as int) == path@);
        return 0;
    }
    let ghost rest = path@.subrange(2, n as int);
    let mut k: usize = 2;
    while k < n && path[k] == 47u8
        invariant
            2 <= k <= n,
            n == path@.len(),
            rest == path@.subrange(2, n as int),
            forall|j: int| 2 <= j < k ==> path@[j] == 47u8,
        decreases n - k,
    {
        k = k + 1;
    }
    proof {
        lemma_skip_slashes_from(rest, k - 2);
        assert(rest.subrange(k - 2, rest.len() as int) == path@.subrange(k as int, n as int));
        let tail = path@.subrange(k as int, n as int);
        if tail.len() > 0 {
            assert(tail[0] == path@[k as int]);
        }
    }
    k
}

/// The line a worker sends for `entry`, if the entry is printed.
pub fn entry_output(set: &PatternSet, entry: &WalkEntry, strip: bool) -> (r: Option<Vec<u8>>)
    ensures
        match r {
            Some(p) => emits(set.accept_sources(), set.reject_sources(), entry@, strip) && p@
                == shown_path(entry.path@, strip),
            None => !emits(set.accept_sources(), set.reject_sources(), entry@, strip),
        },
{
    if !entry.is_file {
        return None;
    }
    let start = shown_start(entry.path.as_slice(), strip);
    let shown = &entry.path.as_slice()[start..entry.path.len()];
    if set.is_selected(shown) {
        let mut out: Vec<u8> = Vec::new();
        out.extend_from_slice(shown);
        assert(out@ == shown@);
        Some(out)
    } else {
        None
    }
}

/// The paths of the entries that are printed, in the order of the entries.
pub fn select_entries(set: &PatternSet, entries: &Vec<WalkEntry>, strip: bool) -> (r: Vec<Vec<u8>>)
    ensures
        r@.map_values(|p: Vec<u8>| p@) == selected(
            set.accept_sources(),
            set.reject_sources(),
            entries@.map_values(|e: WalkEntry| e@),
            strip,
        ),
{
    let ghost es = entries@.map_values(|e: WalkEntry| e@);
    let mut out: Vec<Vec<u8>> = Vec::new();
    let n = entries.len();
    for i in 0..n
        invariant
            n == entries@.len(),
            es == entries@.map_values(|e: WalkEntry| e@),
            out@.map_values(|p: Vec<u8>| p@) == selected(
                set.accept_sources(),
                set.reject_sources(),
                es.take(i as int),
                strip,
            ),
    {
        assert(es.take(i + 1).drop_last() == es.take(i as int));
        assert(es.take(i + 1).last() == entries@[i as int]@);
        match entry_output(set, &entries[i], strip) {
            Some(p) => {
                out.push(p);
                assert(out@.map_values(|p: Vec<u8>| p@) =~= selected(
                    set.accept_sources(),
                    set.reject_sources(),
                    es.take(i as int),
                    strip,
                ).push(shown_path(es[i as int].0, strip)));
            },
            None => {},
        }
    }
    assert(es.take(n as int) == es);
    out
}

/// What a worker does once it has tried to send a path: a failed send means
/// that the writer is gone, and the worker stops.
pub fn after_send(delivered: bool) -> (r: WalkControl)
    ensures
        r == (if delivered {
            WalkControl::Continue
        } else {
            WalkControl::Quit
        }),
{
    if delivered {
        WalkControl::Continue
    } else {
        WalkControl::Quit
    }
}

/// Appends `path`'s bytes and a newline to the output buffer.
pub fn write_path(out: &mut Vec<u8>, path: &[u8])
    ensures
        final(out)@ == old(out)@ + path@ + seq![10u8],
{
    out.extend_from_slice(path);
    out.push(10u8);
}

/// The printed paths of `es` are exactly the shown paths of its regular files
/// that are selected.
pub proof fn lemma_selected_members(
    accept: Seq<Seq<char>>,
    reject: Seq<Seq<char>>,
    es: Seq<(Seq<u8>, bool)>,
    strip: bool,
    p: Seq<u8>,
)
    ensures
        selected(accept, reject, es, strip).contains(p) <==> exists|i: int|
            0 <= i < es.len() && emits(accept, reject, #[trigger] es[i], strip) && shown_path(
                es[i].0,
                strip,
            ) == p,
    decreases es.len(),
{
    if es.len() > 0 {
        let prev = es.drop_last();
        lemma_selected_members(accept, reject, prev, strip, p);
        let out = selected(accept, reject, es, strip);
        let pout = selected(accept, reject, prev, strip);
        if out.contains(p) {
            let k = choose|k: int| 0 <= k < out.len() && out[k] == p;
            if k < pout.len() {
                assert(pout.contains(p));
                let i = choose|i: int|
                    0 <= i < prev.len() && emits(accept, reject, #[trigger] prev[i], strip)
                        && shown_path(prev[i].0, strip) == p;
                assert(es[i] == prev[i]);
            } else {
                assert(es[es.len() - 1] == es.last());
            }
        }
        if exists|i: int|
            0 <= i < es.len() && emits(accept, reject, #[trigger] es[i], strip) && shown_path(
                es[i].0,
                strip,
            ) == p {
            let i = choose|i: int|
                0 <= i < es.len() && emits(accept, reject, #[trigger] es[i], strip) && shown_path(
                    es[i].0,
                    strip,
                ) == p;
            if i < es.len() - 1 {
                assert(prev[i] == es[i]);
                assert(pout.contains(p));
                let k = choose|k: int| 0 <= k < pout.len() && pout[k] == p;
                if emits(accept, reject, es.last(), strip) {
                    assert(out[k] == pout[k]);
                }
                assert(out.contains(p));
            } else {
                assert(out[out.len() - 1] == p);
                assert(out.contains(p));
            }
        }
    }
}

/// The set of paths printed when the entries are handed out to any number of
/// workers, each filtering its own share, is the set printed by one worker
/// that sees them all.
pub proof fn lemma_workers_agree(
    accept: Seq<Seq<char>>,
    reject: Seq<Seq<char>>,
    shares: Seq<Seq<(Seq<u8>, bool)>>,
    es: Seq<(Seq<u8>, bool)>,
    strip: bool,
)
    requires
        forall|e: (Seq<u8>, bool)|
            es.contains(e) <==> exists|w: int| 0 <= w < shares.len() && (#[trigger] shares[w]).contains(e),
    ensures
        Set::new(
            |p: Seq<u8>|
                exists|w: int|
                    0 <= w < shares.len() && (#[trigger] selected(accept, reject, shares[w], strip)).contains(p),
        ) == selected(accept, reject, es, strip).to_set(),
{
    let lhs = Set::new(
        |p: Seq<u8>|
            exists|w: int|
                0 <= w < shares.len() && (#[trigger] selected(accept, reject, shares[w], strip)).contains(p),
    );
    let rhs = selected(accept, reject, es, strip).to_set();
    assert forall|p: Seq<u8>| lhs.contains(p) <==> rhs.contains(p) by {
        lemma_selected_members(accept, reject, es, strip, p);
        if lhs.contains(p) {
            let w = choose|w: int|
                0 <= w < shares.len() && (#[trigger] selected(accept, reject, shares[w], strip)).contains(p);
            lemma_selected_members(accept, reject, shares[w], strip, p);
            let i = choose|i: int|
                0 <= i < shares[w].len() && emits(accept, reject, #[trigger] shares[w][i], strip)
                    && shown_path(shares[w][i].0, strip) == p;
            assert(shares[w].contains(shares[w][i]));
            assert(es.contains(shares[w][i]));
            let j = choose|j: int| 0 <= j < es.len() && es[j] == shares[w][i];
            assert(emits(accept, reject, es[j], strip));
        }
        if rhs.contains(p) {
            let i = choose|i: int|
                0 <= i < es.len() && emits(accept, reject, #[trigger] es[i], strip) && shown_path(
                    es[i].0,
                    strip,
                ) == p;
            assert(es.contains(es[i]));
            let w = choose|w: int| 0 <= w < shares.len() && (#[trigger] shares[w]).contains(es[i]);
            let j = choose|j: int| 0 <= j < shares[w].len() && shares[w][j] == es[i];
            lemma_selected_members(accept, reject, shares[w], strip, p);
            assert(emits(accept, reject, shares[w][j], strip));
            assert(selected(accept, reject, shares[w], strip).contains(p));
        }
    }
    assert(lhs =~= rhs);
}

} // verus!
