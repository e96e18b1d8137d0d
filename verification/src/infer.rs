//! Reconstructing the nesting of passes from the sorted artifact names.
//!
//! A `Before` artifact opens a pass and the next `After` artifact on the
//! same level closes it, as brackets do; what stands between them is the
//! pipeline nested in that pass.

use vstd::prelude::*;
use crate::marker::LogKind;
use crate::namer::{ArtifactName, ArtifactNameView};

verus! {

/// A pass with its two dumps, each given as the index of its artifact in
/// the list that was read.
#[derive(Debug)]
pub struct SinglePass {
    pub pass_name: String,
    pub before: usize,
    pub after: usize,
}

/// A pass: alone, or with the pipeline that ran inside it.
#[derive(Debug)]
pub enum Pass {
    Single(SinglePass),
    Nested { parent: SinglePass, pipeline: Pipeline },
}

/// The passes of one nesting level, in order.
#[derive(Debug)]
pub struct Pipeline {
    pub passes: Vec<Pass>,
}

/// Why a list of artifacts is not the record of a pipeline.
#[derive(Debug)]
pub enum InferError {
    /// The list ended while pass `expected` was open.
    ExhaustedInput { expected: String },
    /// Pass `expected` was open and the `After` artifact of `actual` came.
    MismatchedAfter { expected: String, actual: String },
    /// The artifact at `index` is neither a `Before` nor an `After` dump.
    UnknownKind { index: usize },
}

/// The mathematical content of a [`Pass`]. A pass without children is a
/// `Single` one.
pub ghost struct PassView {
    pub name: Seq<char>,
    pub before: nat,
    pub after: nat,
    pub children: Seq<PassView>,
}

/// The mathematical content of an [`InferError`].
pub ghost enum InferErrorView {
    ExhaustedInput { expected: Seq<char> },
    MismatchedAfter { expected: Seq<char>, actual: Seq<char> },
    UnknownKind { index: nat },
}

impl View for InferError {
    type V = InferErrorView;

    open spec fn view(&self) -> InferErrorView {
        match self {
            InferError::ExhaustedInput { expected } => InferErrorView::ExhaustedInput {
                expected: expected@,
            },
            InferError::MismatchedAfter { expected, actual } => InferErrorView::MismatchedAfter {
                expected: expected@,
                actual: actual@,
            },
            InferError::UnknownKind { index } => InferErrorView::UnknownKind {
                index: *index as nat,
            },
        }
    }
}

impl Pass {
    /// The pass as a tree node.
    pub open spec fn tree(&self) -> PassView
        decreases self,
    {
        match self {
            Pass::Single(s) => PassView {
                name: s.pass_name@,
                before: s.before as nat,
                after: s.after as nat,
                children: Seq::empty(),
            },
            Pass::Nested { parent, pipeline } => PassView {
                name: parent.pass_name@,
                before: parent.before as nat,
                after: parent.after as nat,
                children: pipeline.forest(),
            },
        }
    }

    /// A `Nested` pass has children, and so on below it.
    pub open spec fn well_formed(&self) -> bool
        decreases self,
    {
        match self {
            Pass::Single(_) => true,
            Pass::Nested { parent, pipeline } => pipeline.passes.len() > 0
                && pipeline.well_formed(),
        }
    }
}

impl Pipeline {
    /// The pipeline as a sequence of tree nodes.
    pub open spec fn forest(&self) -> Seq<PassView>
        decreases self,
    {
        Seq::new(
            self.passes.len() as nat,
            |i: int|
                if 0 <= i < self.passes.len() {
                    self.passes[i].tree()
                } else {
                    arbitrary()
                },
        )
    }

    /// Every pass in it is well formed.
    pub open spec fn well_formed(&self) -> bool
        decreases self,
    {
        forall|i: int| 0 <= i < self.passes.len() ==> (#[trigger] self.passes[i]).well_formed()
    }
}

/// The contents of a list of artifact names.
pub open spec fn name_views(entries: Seq<ArtifactName>) -> Seq<ArtifactNameView> {
    entries.map_values(|a: ArtifactName| a@)
}

/// What reading one nesting level gives: the passes and the position behind
/// them, or the reason why there is none.
pub type Level = Result<(Seq<PassView>, nat), InferErrorView>;

/// `read` with `done` in front of its passes.
pub open spec fn after_passes(done: Seq<PassView>, read: Level) -> Level {
    match read {
        Ok((rest, end)) => Ok((done + rest, end)),
        Err(e) => Err(e),
    }
}

/// Reads the passes of one level, from position `pos` up to the first
/// `After` artifact or the end of the list.
pub open spec fn read_pipeline_spec(s: Seq<ArtifactNameView>, pos: nat) -> Level
    decreases s.len() - pos, 0nat,
{
    if pos >= s.len() {
        Ok((Seq::empty(), pos))
    } else {
        match s[pos as int].kind {
            LogKind::After => Ok((Seq::empty(), pos)),
            LogKind::Unknown => Err(InferErrorView::UnknownKind { index: pos }),
            LogKind::Before => match read_pass_spec(s, pos + 1, pos) {
                Err(e) => Err(e),
                Ok((pass, next)) => if pos < next <= s.len() {
                    after_passes(seq![pass], read_pipeline_spec(s, next))
                } else {
                    // a pass ends behind its `Before` artifact: see `lemma_pass_advances`
                    Ok((seq![pass], next))
                },
            },
        }
    }
}

/// Reads what is left of the pass whose `Before` artifact stands at
/// `before`: the pipeline nested in it, from `pos` on, and then its `After`
/// artifact. Gives the pass and the position behind it.
pub open spec fn read_pass_spec(s: Seq<ArtifactNameView>, pos: nat, before: nat) -> Result<
    (PassView, nat),
    InferErrorView,
>
    decreases s.len() - pos, 1nat,
{
    match read_pipeline_spec(s, pos) {
        Err(e) => Err(e),
        Ok((children, end)) => if end >= s.len() {
            Err(InferErrorView::ExhaustedInput { expected: s[before as int].pass_name })
        } else if s[end as int].pass_name != s[before as int].pass_name {
            Err(
                InferErrorView::MismatchedAfter {
                    expected: s[before as int].pass_name,
                    actual: s[end as int].pass_name,
                },
            )
        } else {
            Ok(
                (
                    PassView {
                        name: s[before as int].pass_name,
                        before,
                        after: end,
                        children,
                    },
                    end + 1,
                ),
            )
        },
    }
}

/// The passes of the top level. Reading stops at the end of the list, or at
/// an `After` artifact that closes no pass.
pub open spec fn infer_spec(s: Seq<ArtifactNameView>) -> Result<Seq<PassView>, InferErrorView> {
    match read_pipeline_spec(s, 0) {
        Ok((passes, _)) => Ok(passes),
        Err(e) => Err(e),
    }
}

/// Reading a level never goes back, and it stops at the end of the list or
/// in front of an `After` artifact; reading a pass goes forward.
pub proof fn lemma_pass_advances(s: Seq<ArtifactNameView>, pos: nat, before: nat)
    requires
        pos <= s.len(),
    ensures
        read_pipeline_spec(s, pos) matches Ok((_, end)) ==> pos <= end <= s.len() && (end
            < s.len() ==> s[end as int].kind == LogKind::After),
        read_pass_spec(s, pos, before) matches Ok((_, next)) ==> pos < next <= s.len(),
    decreases s.len() - pos, 2nat,
{
    if pos < s.len() && s[pos as int].kind == LogKind::Before {
        lemma_pass_advances(s, pos + 1, pos);
        if let Ok((_, next)) = read_pass_spec(s, pos + 1, pos) {
            lemma_pass_advances(s, next, before);
        }
    }
}

/// Whether the passes of `f` are the matched pairs of `s` from `lo` up to
/// `hi`: each pass opens with a `Before` artifact, closes with the `After`
/// artifact of the same name, holds between the two exactly the artifacts
/// of its children, and is followed at once by the next pass.
pub open spec fn spans(s: Seq<ArtifactNameView>, f: Seq<PassView>, lo: nat, hi: nat) -> bool
    decreases f,
{
    if f.len() == 0 {
        lo == hi
    } else {
        let p = f[0];
        &&& p.before == lo
        &&& lo < p.after < hi <= s.len()
        &&& s[lo as int].kind == LogKind::Before
        &&& s[p.after as int].kind == LogKind::After
        &&& s[lo as int].pass_name == p.name
        &&& s[p.after as int].pass_name == p.name
        &&& spans(s, p.children, lo + 1, p.after)
        &&& spans(s, f.drop_first(), p.after + 1, hi)
    }
}

/// What was read as one level is a row of matched pairs: every `Before`
/// artifact has its `After` artifact, of the same pass name, behind it,
/// and what lies between the two belongs to the passes nested in it.
pub proof fn lemma_passes_are_matched_pairs(s: Seq<ArtifactNameView>, pos: nat)
    requires
        pos <= s.len(),
    ensures
        read_pipeline_spec(s, pos) matches Ok((f, end)) ==> spans(s, f, pos, end),
    decreases s.len() - pos,
{
    if pos < s.len() && s[pos as int].kind == LogKind::Before {
        lemma_pass_advances(s, pos + 1, pos);
        lemma_passes_are_matched_pairs(s, pos + 1);
        if let Ok((pass, next)) = read_pass_spec(s, pos + 1, pos) {
            lemma_pass_advances(s, next, pos);
            lemma_passes_are_matched_pairs(s, next);
            if let Ok((rest, end)) = read_pipeline_spec(s, next) {
                let f = seq![pass] + rest;
                assert(f[0] == pass);
                assert(f.drop_first() =~= rest);
            }
        }
    }
}

fn read_pipeline(entries: &Vec<ArtifactName>, start: usize) -> (r: Result<
    (Pipeline, usize),
    InferError,
>)
    requires
        start <= entries.len(),
    ensures
        match read_pipeline_spec(name_views(entries@), start as nat) {
            Ok((passes, end)) => r matches Ok((p, e)) && p.forest() == passes && e == end
                && p.well_formed(),
            Err(x) => r matches Err(e) && e@ == x,
        },
        r matches Ok((_, e)) ==> start <= e <= entries.len(),
    decreases entries.len() - start, 0nat,
{
    let ghost s = name_views(entries@);
    let n: usize = entries.len();
    let mut passes: Vec<Pass> = Vec::new();
    let mut pos: usize = start;
    assert((Pipeline { passes }).forest() =~= Seq::empty());
    assert(after_passes(Seq::empty(), read_pipeline_spec(s, pos as nat)) == read_pipeline_spec(
        s,
        start as nat,
    )) by {
        match read_pipeline_spec(s, pos as nat) {
            Ok((rest, _)) => {
                assert(Seq::<PassView>::empty() + rest =~= rest);
            },
            Err(_) => {},
        }
    }
    while pos < n && entries[pos].kind != LogKind::After
        invariant
            s == name_views(entries@),
            n == entries.len(),
            start <= pos <= n,
            (Pipeline { passes }).well_formed(),
            after_passes((Pipeline { passes }).forest(), read_pipeline_spec(s, pos as nat))
                == read_pipeline_spec(s, start as nat),
        decreases n - pos,
    {
        assert(s[pos as int] == entries[pos as int]@);
        if entries[pos].kind == LogKind::Unknown {
            return Err(InferError::UnknownKind { index: pos });
        }
        let ghost done = (Pipeline { passes }).forest();
        proof {
            lemma_pass_advances(s, (pos + 1) as nat, pos as nat);
        }
        match read_pass(entries, pos + 1, pos) {
            Err(e) => {
                return Err(e);
            },
            Ok((pass, next)) => {
                let ghost node = pass.tree();
                passes.push(pass);
                proof {
                    assert((Pipeline { passes }).forest() =~= done.push(node));
                    match read_pipeline_spec(s, next as nat) {
                        Ok((rest, _)) => {
                            assert(done + (seq![node] + rest) =~= done.push(node) + rest);
                        },
                        Err(_) => {},
                    }
                }
                pos = next;
            },
        }
    }
    proof {
        assert((Pipeline { passes }).forest() + Seq::<PassView>::empty() =~= (Pipeline {
            passes,
        }).forest());
    }
    Ok((Pipeline { passes }, pos))
}

fn read_pass(entries: &Vec<ArtifactName>, pos: usize, before: usize) -> (r: Result<
    (Pass, usize),
    InferError,
>)
    requires
        before < pos <= entries.len(),
    ensures
        match read_pass_spec(name_views(entries@), pos as nat, before as nat) {
            Ok((pass, next)) => r matches Ok((p, e)) && p.tree() == pass && e == next
                && p.well_formed(),
            Err(x) => r matches Err(e) && e@ == x,
        },
        r matches Ok((_, e)) ==> pos < e <= entries.len(),
    decreases entries.len() - pos, 1nat,
{
    let ghost s = name_views(entries@);
    let looking_for: &String = &entries[before].pass_name;
    assert(s[before as int] == entries[before as int]@);
    match read_pipeline(entries, pos) {
        Err(e) => Err(e),
        Ok((pipeline, end)) => {
            if end >= entries.len() {
                return Err(InferError::ExhaustedInput { expected: looking_for.clone() });
            }
            assert(s[end as int] == entries[end as int]@);
            let found: &String = &entries[end].pass_name;
            if !(*found == *looking_for) {
                return Err(
                    InferError::MismatchedAfter {
                        expected: looking_for.clone(),
                        actual: found.clone(),
                    },
                );
            }
            let this = SinglePass { pass_name: found.clone(), before, after: end };
            if pipeline.passes.len() == 0 {
                assert(pipeline.forest() =~= Seq::empty());
                Ok((Pass::Single(this), end + 1))
            } else {
                Ok((Pass::Nested { parent: this, pipeline }, end + 1))
            }
        },
    }
}

/// Reads the artifacts of one split, sorted by name and without the prelude,
/// back into the pipeline that wrote them. Each pass holds the indices of
/// its two artifacts in `entries`.
///
/// Fails where the list ends inside a pass, where a pass is closed by the
/// `After` artifact of another, and where an artifact of unknown kind stands
/// where a pass should start.
pub fn infer_pass_pipeline(entries: &Vec<ArtifactName>) -> (r: Result<Pipeline, InferError>)
    ensures
        match infer_spec(name_views(entries@)) {
            Ok(passes) => r matches Ok(p) && p.forest() == passes && p.well_formed(),
            Err(x) => r matches Err(e) && e@ == x,
        },
{
    match read_pipeline(entries, 0) {
        Ok((pipeline, _)) => Ok(pipeline),
        Err(e) => Err(e),
    }
}

} // verus!
