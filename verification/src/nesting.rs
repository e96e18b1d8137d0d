//! Splitting a correctly nested log and reading the artifact names back
//! gives the passes in the order in which they started.

use vstd::prelude::*;
use crate::marker::{marker_of, LogInfoView, LogKind};
use crate::namer::{
    advance_spec, name_spec, namer_start, sorts_before, ArtifactNameView, NamerState,
};
use crate::infer::{infer_spec, read_pass_spec, read_pipeline_spec, PassView};
use crate::splitter::{split_prefix, ArtifactView};

verus! {

/// Whether the marker at `close` is the `After` marker of the pass that the
/// marker at `open` announces.
pub open spec fn closes(m: Seq<LogInfoView>, open: int, close: int) -> bool {
    m[close].kind == LogKind::After && m[close].pass_name == m[open].pass_name && m[close].extras
        == m[open].extras
}

/// Whether the markers from `lo` up to `hi` are correctly nested pairs:
/// there are none, or the first is a `Before` marker, its `After` marker
/// follows, and the markers between the two and those behind them are
/// correctly nested in turn.
pub open spec fn nested(m: Seq<LogInfoView>, lo: int, hi: int) -> bool
    decreases hi - lo,
{
    if lo >= hi {
        lo == hi
    } else {
        m[lo].kind == LogKind::Before && exists|mid: int|
            lo < mid < hi && #[trigger] closes(m, lo, mid) && nested(m, lo + 1, mid) && nested(
                m,
                mid + 1,
                hi,
            )
    }
}

/// The state of the namer after the first `n` markers.
pub open spec fn namer_after(m: Seq<LogInfoView>, n: nat) -> NamerState
    decreases n,
{
    if n == 0 {
        namer_start()
    } else {
        advance_spec(namer_after(m, (n - 1) as nat), m[n - 1])
    }
}

/// The artifact names that the markers get, in the order of the markers.
pub open spec fn names_of(m: Seq<LogInfoView>) -> Seq<ArtifactNameView> {
    Seq::new(m.len(), |i: int| name_spec(namer_after(m, i as nat), m[i]))
}

/// The pass names of the `Before` markers from `lo` up to `hi`, in order.
pub open spec fn before_names(m: Seq<LogInfoView>, lo: int, hi: int) -> Seq<Seq<char>>
    decreases hi - lo,
{
    if lo >= hi {
        Seq::empty()
    } else if m[lo].kind == LogKind::Before {
        seq![m[lo].pass_name] + before_names(m, lo + 1, hi)
    } else {
        before_names(m, lo + 1, hi)
    }
}

/// The pass names of a forest, each pass before its children and before the
/// passes that follow it.
pub open spec fn preorder(f: Seq<PassView>) -> Seq<Seq<char>>
    decreases f,
{
    if f.len() == 0 {
        Seq::empty()
    } else {
        seq![f[0].name] + preorder(f[0].children) + preorder(f.drop_first())
    }
}

/// The markers among the first `n` lines, in order.
pub open spec fn markers_in(lines: Seq<Seq<char>>, n: nat) -> Seq<LogInfoView>
    decreases n,
{
    if n == 0 {
        Seq::empty()
    } else {
        match marker_of(lines[n - 1]) {
            Some(m) => markers_in(lines, (n - 1) as nat).push(m),
            None => markers_in(lines, (n - 1) as nat),
        }
    }
}

/// The names of the artifacts behind the prelude.
pub open spec fn dump_names(artifacts: Seq<ArtifactView>) -> Seq<Option<ArtifactNameView>> {
    Seq::new((artifacts.len() - 1) as nat, |i: int| artifacts[i + 1].name)
}

proof fn lemma_before_names_split(m: Seq<LogInfoView>, lo: int, mid: int, hi: int)
    requires
        lo <= mid <= hi,
    ensures
        before_names(m, lo, hi) == before_names(m, lo, mid) + before_names(m, mid, hi),
    decreases mid - lo,
{
    if lo < mid {
        lemma_before_names_split(m, lo + 1, mid, hi);
        assert(before_names(m, lo, hi) =~= before_names(m, lo, mid) + before_names(m, mid, hi));
    } else {
        assert(before_names(m, lo, hi) =~= before_names(m, lo, mid) + before_names(m, mid, hi));
    }
}

proof fn lemma_namer_after_push(m: Seq<LogInfoView>, x: LogInfoView, n: nat)
    requires
        n <= m.len(),
    ensures
        namer_after(m.push(x), n) == namer_after(m, n),
    decreases n,
{
    if n > 0 {
        lemma_namer_after_push(m, x, (n - 1) as nat);
    }
}

proof fn lemma_read_nested(m: Seq<LogInfoView>, s: Seq<ArtifactNameView>, lo: int, hi: int)
    requires
        0 <= lo <= hi <= m.len(),
        s.len() == m.len(),
        forall|i: int|
            0 <= i < m.len() ==> (#[trigger] s[i]).kind == m[i].kind && s[i].pass_name
                == m[i].pass_name,
        nested(m, lo, hi),
        hi == m.len() || m[hi].kind == LogKind::After,
    ensures
        read_pipeline_spec(s, lo as nat) matches Ok((f, end)) && end == hi && preorder(f)
            == before_names(m, lo, hi),
    decreases hi - lo,
{
    if lo < hi {
        let mid = choose|mid: int|
            lo < mid < hi && #[trigger] closes(m, lo, mid) && nested(m, lo + 1, mid) && nested(
                m,
                mid + 1,
                hi,
            );
        lemma_read_nested(m, s, lo + 1, mid);
        lemma_read_nested(m, s, mid + 1, hi);
        let children = read_pipeline_spec(s, (lo + 1) as nat)->Ok_0.0;
        let rest = read_pipeline_spec(s, (mid + 1) as nat)->Ok_0.0;
        let pass = PassView {
            name: s[lo].pass_name,
            before: lo as nat,
            after: mid as nat,
            children,
        };
        assert(s[lo].kind == LogKind::Before);
        assert(s[mid].pass_name == s[lo].pass_name);
        assert(read_pass_spec(s, (lo + 1) as nat, lo as nat) == Ok::<
            (PassView, nat),
            crate::infer::InferErrorView,
        >((pass, (mid + 1) as nat)));
        let f = seq![pass] + rest;
        assert(read_pipeline_spec(s, lo as nat) == Ok::<
            (Seq<PassView>, nat),
            crate::infer::InferErrorView,
        >((f, hi as nat)));
        assert(f.drop_first() =~= rest);
        assert(f[0] == pass);
        lemma_before_names_split(m, lo + 1, mid, hi);
        assert(before_names(m, mid, hi) == before_names(m, mid + 1, hi));
        assert(preorder(f) =~= before_names(m, lo, hi));
    }
}

/// For a log whose markers are correctly nested pairs, the artifact names
/// come out in strictly ascending order, so sorting them changes nothing,
/// and reading them back succeeds with a forest whose pass names, taken
/// depth first and parents first, are the pass names of the `Before`
/// markers in the order of the log.
pub proof fn lemma_split_then_infer(m: Seq<LogInfoView>)
    requires
        nested(m, 0, m.len() as int),
    ensures
        forall|i: int|
            0 <= i < m.len() - 1 ==> sorts_before(#[trigger] names_of(m)[i], names_of(m)[i + 1]),
        infer_spec(names_of(m)) matches Ok(f) && preorder(f) == before_names(
            m,
            0,
            m.len() as int,
        ),
{
    lemma_read_nested(m, names_of(m), 0, m.len() as int);
}

/// The artifacts behind the prelude carry, in order, the names that the
/// namer gives to the markers of the log.
pub proof fn lemma_split_names(lines: Seq<Seq<char>>, n: nat)
    requires
        n <= lines.len(),
    ensures
        split_prefix(lines, n).artifacts.len() == markers_in(lines, n).len() + 1,
        split_prefix(lines, n).namer == namer_after(
            markers_in(lines, n),
            markers_in(lines, n).len(),
        ),
        dump_names(split_prefix(lines, n).artifacts) == names_of(markers_in(lines, n)).map_values(
            |a: ArtifactNameView| Some(a),
        ),
    decreases n,
{
    if n > 0 {
        let prev = (n - 1) as nat;
        lemma_split_names(lines, prev);
        let before = markers_in(lines, prev);
        match marker_of(lines[n - 1]) {
            Some(x) => {
                assert forall|i: nat| i <= before.len() implies namer_after(before.push(x), i)
                    == namer_after(before, i) by {
                    lemma_namer_after_push(before, x, i);
                }
                let was = split_prefix(lines, prev).artifacts;
                let now = split_prefix(lines, n).artifacts;
                let named = names_of(before.push(x)).map_values(|a: ArtifactNameView| Some(a));
                assert(dump_names(now).len() == named.len());
                assert forall|i: int| 0 <= i < named.len() implies dump_names(now)[i]
                    == named[i] by {
                    if i < before.len() {
                        assert(now[i + 1] == was[i + 1]);
                        assert(dump_names(was)[i] == was[i + 1].name);
                        assert(names_of(before).map_values(|a: ArtifactNameView| Some(a))[i]
                            == Some(names_of(before)[i]));
                        assert(before.push(x)[i] == before[i]);
                        assert(namer_after(before.push(x), i as nat) == namer_after(
                            before,
                            i as nat,
                        ));
                    } else {
                        assert(before.push(x)[i] == x);
                        assert(namer_after(before.push(x), i as nat) == namer_after(
                            before,
                            i as nat,
                        ));
                    }
                }
                assert(dump_names(now) =~= named);
            },
            None => {
                assert(dump_names(split_prefix(lines, n).artifacts) =~= dump_names(
                    split_prefix(lines, prev).artifacts,
                ));
            },
        }
    } else {
        assert(dump_names(split_prefix(lines, n).artifacts) =~= names_of(
            markers_in(lines, n),
        ).map_values(|a: ArtifactNameView| Some(a)));
    }
}

/// A log whose markers are correctly nested pairs splits into artifacts
/// whose names, read back, give the passes in the order in which the log
/// starts them.
pub proof fn lemma_log_round_trip(lines: Seq<Seq<char>>)
    requires
        nested(markers_in(lines, lines.len()), 0, markers_in(lines, lines.len()).len() as int),
    ensures
        ({
            let m = markers_in(lines, lines.len());
            let names = names_of(m);
            &&& dump_names(split_prefix(lines, lines.len()).artifacts) == names.map_values(
                |a: ArtifactNameView| Some(a),
            )
            &&& infer_spec(names) matches Ok(f) && preorder(f) == before_names(
                m,
                0,
                m.len() as int,
            )
        }),
{
    lemma_split_names(lines, lines.len());
    lemma_split_then_infer(markers_in(lines, lines.len()));
}

} // verus!
