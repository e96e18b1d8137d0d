//! Routing the lines of a log to the artifacts they belong to.

use vstd::prelude::*;
use crate::marker::{is_marker_shaped, looks_like_marker, marker_of, parse_marker_line};
use crate::namer::{
    advance_spec, name_spec, namer_start, reuses_sequence, ArtifactName, ArtifactNameView,
    ArtifactNamer, NamerState,
};

verus! {

/// One artifact: its name (`None` for the prelude, the content before the
/// first marker) and the lines routed to it, in order.
#[derive(Debug)]
pub struct Artifact {
    pub name: Option<ArtifactName>,
    pub lines: Vec<String>,
}

/// The mathematical content of an [`Artifact`].
pub ghost struct ArtifactView {
    pub name: Option<ArtifactNameView>,
    pub lines: Seq<Seq<char>>,
}

/// The texts of a sequence of strings.
pub open spec fn texts(lines: Seq<String>) -> Seq<Seq<char>> {
    lines.map_values(|s: String| s@)
}

impl View for Artifact {
    type V = ArtifactView;

    open spec fn view(&self) -> ArtifactView {
        ArtifactView {
            name: match self.name {
                Some(n) => Some(n@),
                None => None,
            },
            lines: texts(self.lines@),
        }
    }
}

/// The contents of a sequence of artifacts.
pub open spec fn artifact_views(artifacts: Seq<Artifact>) -> Seq<ArtifactView> {
    artifacts.map_values(|a: Artifact| a@)
}

/// Where a split stands: the artifacts so far, the last of them being the
/// one that takes content, and the state of the namer.
pub ghost struct SplitState {
    pub artifacts: Seq<ArtifactView>,
    pub namer: NamerState,
}

/// Before the first line: an empty prelude.
pub open spec fn split_start() -> SplitState {
    SplitState {
        artifacts: seq![ArtifactView { name: None, lines: Seq::empty() }],
        namer: namer_start(),
    }
}

/// One line more. A marker line opens a new artifact and is its first line;
/// any other line goes to the end of the artifact that is open.
pub open spec fn split_step(st: SplitState, line: Seq<char>) -> SplitState {
    match marker_of(line) {
        Some(m) => SplitState {
            artifacts: st.artifacts.push(
                ArtifactView { name: Some(name_spec(st.namer, m)), lines: seq![line] },
            ),
            namer: advance_spec(st.namer, m),
        },
        None => {
            let open = st.artifacts.last();
            SplitState {
                artifacts: st.artifacts.drop_last().push(
                    ArtifactView { name: open.name, lines: open.lines.push(line) },
                ),
                namer: st.namer,
            }
        },
    }
}

/// The state after the first `n` lines.
pub open spec fn split_prefix(lines: Seq<Seq<char>>, n: nat) -> SplitState
    decreases n,
{
    if n == 0 {
        split_start()
    } else {
        split_step(split_prefix(lines, (n - 1) as nat), lines[n - 1])
    }
}

/// The artifacts of a whole log.
pub open spec fn split_spec(lines: Seq<Seq<char>>) -> Seq<ArtifactView> {
    split_prefix(lines, lines.len()).artifacts
}

/// How many of the first `n` lines are marker lines.
pub open spec fn marker_count(lines: Seq<Seq<char>>, n: nat) -> nat
    decreases n,
{
    if n == 0 {
        0
    } else {
        marker_count(lines, (n - 1) as nat) + if marker_of(lines[n - 1]) is Some {
            1nat
        } else {
            0nat
        }
    }
}

/// How many of the first `n` lines are marker lines that got a sequence
/// number of their own.
pub open spec fn fresh_count(lines: Seq<Seq<char>>, n: nat) -> nat
    decreases n,
{
    if n == 0 {
        0
    } else {
        let before = split_prefix(lines, (n - 1) as nat).namer;
        fresh_count(lines, (n - 1) as nat) + match marker_of(lines[n - 1]) {
            Some(m) => if reuses_sequence(before.last, m) {
                0nat
            } else {
                1nat
            },
            None => 0nat,
        }
    }
}

/// What to do with one line of the log.
#[derive(Debug)]
pub enum LineAction {
    /// Write the line to the sink that is open.
    Content,
    /// As `Content`; the line starts and ends as a marker does, but is
    /// none, which is worth a warning.
    Malformed,
    /// Open the sink of the artifact `name` and write the line to it as
    /// its first line. `fresh` says whether the marker got a sequence
    /// number of its own.
    Marker { name: ArtifactName, fresh: bool },
}

/// Decides where one line goes, and takes note of the marker if it is one.
pub fn route_line(namer: &mut ArtifactNamer, line: &str) -> (action: LineAction)
    requires
        old(namer).counter < usize::MAX,
    ensures
        match marker_of(line@) {
            Some(m) => {
                &&& final(namer)@ == advance_spec(old(namer)@, m)
                &&& action matches LineAction::Marker { name, fresh }
                &&& name@ == name_spec(old(namer)@, m)
                &&& fresh == !reuses_sequence(old(namer)@.last, m)
            },
            None => {
                &&& final(namer)@ == old(namer)@
                &&& if looks_like_marker(line@) {
                    action is Malformed
                } else {
                    action is Content
                }
            },
        },
{
    match parse_marker_line(line) {
        Some(info) => {
            let allocation = namer.advance(info);
            LineAction::Marker { name: allocation.0, fresh: allocation.1 }
        },
        None => {
            if is_marker_shaped(line) {
                LineAction::Malformed
            } else {
                LineAction::Content
            }
        },
    }
}

/// Splits a log, given line by line (each line with its line feed), into its
/// artifacts: the prelude first, then one per marker line, in the order of
/// the markers. Every line stands in exactly one artifact.
pub fn process_log_stream(lines: &Vec<String>) -> (artifacts: Vec<Artifact>)
    ensures
        artifact_views(artifacts@) == split_spec(texts(lines@)),
{
    let ghost all = texts(lines@);
    let mut done: Vec<Artifact> = Vec::new();
    let mut open = Artifact { name: None, lines: Vec::new() };
    let mut namer = ArtifactNamer::new();
    let n: usize = lines.len();
    let mut i: usize = 0;
    assert(open@.lines =~= Seq::empty());
    assert(artifact_views(done@).push(open@) =~= split_start().artifacts);
    while i < n
        invariant
            n == lines.len(),
            all == texts(lines@),
            i <= n,
            namer.counter <= i,
            namer@ == split_prefix(all, i as nat).namer,
            artifact_views(done@).push(open@) == split_prefix(all, i as nat).artifacts,
        decreases n - i,
    {
        let line: &String = &lines[i];
        let ghost before = split_prefix(all, i as nat);
        let ghost shut = artifact_views(done@);
        let ghost was = open@;
        assert(all[i as int] == line@);
        match route_line(&mut namer, line.as_str()) {
            LineAction::Marker { name, fresh: _ } => {
                done.push(open);
                let mut first: Vec<String> = Vec::new();
                first.push(line.clone());
                open = Artifact { name: Some(name), lines: first };
                proof {
                    assert(open@.lines =~= seq![line@]);
                    assert(artifact_views(done@) =~= shut.push(was));
                }
            },
            _ => {
                open.lines.push(line.clone());
                proof {
                    assert(open@.lines =~= was.lines.push(line@));
                    assert(before.artifacts.drop_last() =~= shut);
                    assert(before.artifacts.last() == was);
                }
            },
        }
        i = i + 1;
    }
    let ghost shut = artifact_views(done@);
    let ghost last = open@;
    done.push(open);
    assert(artifact_views(done@) =~= shut.push(last));
    done
}

/// Every split holds the prelude and one artifact per marker line, and the
/// last sequence number is the number of markers that got one of their own.
pub proof fn lemma_artifact_count(lines: Seq<Seq<char>>, n: nat)
    requires
        n <= lines.len(),
    ensures
        split_prefix(lines, n).artifacts.len() == 1 + marker_count(lines, n),
        split_prefix(lines, n).namer.counter == fresh_count(lines, n),
        fresh_count(lines, n) <= marker_count(lines, n) <= n,
    decreases n,
{
    if n > 0 {
        lemma_artifact_count(lines, (n - 1) as nat);
    }
}

/// Whether artifact `a` carries sequence number `k`. The prelude carries 0.
pub open spec fn carries(a: ArtifactView, k: nat) -> bool {
    match a.name {
        Some(name) => name.sequence == k,
        None => k == 0,
    }
}

/// Whether one of the artifacts carries sequence number `k`.
pub open spec fn in_use(artifacts: Seq<ArtifactView>, k: nat) -> bool {
    exists|i: int| 0 <= i < artifacts.len() && carries(#[trigger] artifacts[i], k)
}

/// The sequence numbers in use are those from 0, which only the prelude
/// carries, up to the one allocated last: each of them is carried by an
/// artifact, and no artifact carries another.
pub proof fn lemma_numbers_in_use(lines: Seq<Seq<char>>, n: nat)
    requires
        n <= lines.len(),
    ensures
        ({
            let st = split_prefix(lines, n);
            &&& st.artifacts.len() > 0
            &&& st.artifacts[0].name is None
            &&& st.namer.last is Some ==> st.namer.counter >= 1
            &&& forall|i: int|
                1 <= i < st.artifacts.len() ==> (#[trigger] st.artifacts[i]).name is Some && 1
                    <= st.artifacts[i].name->0.sequence <= st.namer.counter
            &&& forall|k: nat| k <= st.namer.counter ==> #[trigger] in_use(st.artifacts, k)
        }),
    decreases n,
{
    let st = split_prefix(lines, n);
    if n == 0 {
        assert(carries(st.artifacts[0], 0));
    } else {
        lemma_numbers_in_use(lines, (n - 1) as nat);
        let was = split_prefix(lines, (n - 1) as nat);
        assert forall|k: nat| k <= st.namer.counter implies #[trigger] in_use(
            st.artifacts,
            k,
        ) by {
            if k <= was.namer.counter {
                assert(in_use(was.artifacts, k));
                let i = choose|i: int|
                    0 <= i < was.artifacts.len() && carries(#[trigger] was.artifacts[i], k);
                assert(carries(st.artifacts[i], k));
            } else {
                assert(carries(st.artifacts[st.artifacts.len() - 1], k));
            }
        }
        assert forall|i: int| 1 <= i < st.artifacts.len() implies (#[trigger] st.artifacts[i]).name
            is Some && 1 <= st.artifacts[i].name->0.sequence <= st.namer.counter by {
            if i < was.artifacts.len() {
                assert(was.artifacts[i].name is Some);
                assert(st.artifacts[i].name == was.artifacts[i].name);
            }
        }
    }
}

/// A line that starts and ends as a marker does, but whose payload does not
/// split into kind, pass name and extras, is content: it goes unchanged to
/// the end of the open artifact. No artifact is added, none of the others
/// changes, and no sequence number is taken.
pub proof fn lemma_malformed_marker_is_content(st: SplitState, line: Seq<char>)
    requires
        st.artifacts.len() > 0,
        looks_like_marker(line),
        marker_of(line) is None,
    ensures
        ({
            let next = split_step(st, line);
            &&& next.namer == st.namer
            &&& next.artifacts.len() == st.artifacts.len()
            &&& next.artifacts.drop_last() == st.artifacts.drop_last()
            &&& next.artifacts.last().name == st.artifacts.last().name
            &&& next.artifacts.last().lines == st.artifacts.last().lines.push(line)
        }),
{
    let next = split_step(st, line);
    assert(next.artifacts.drop_last() =~= st.artifacts.drop_last());
}

} // verus!
