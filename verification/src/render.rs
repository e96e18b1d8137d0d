//! Drawing a pipeline as a tree, one pass per line.

use vstd::prelude::*;
use vstd::string::*;
use crate::infer::{Pass, PassView, Pipeline};

verus! {

/// What stands in front of the first level: a margin.
pub open spec fn margin_spec() -> Seq<char> {
    "  "@
}

/// The connector in front of a pass: a corner for the last pass of its
/// level, a branch for the others.
pub open spec fn connector_spec(last: bool) -> Seq<char> {
    if last {
        "┖─ "@
    } else {
        "┠─ "@
    }
}

/// What the lines below a pass carry in its column: a vertical bar where
/// more passes of its level follow, blanks below the last one.
pub open spec fn continuation_spec(last: bool) -> Seq<char> {
    if last {
        "   "@
    } else {
        "┃  "@
    }
}

/// The lines of the passes of `f` from index `i` on, each line behind
/// `indent`: a pass on a line of its own, followed by the lines of its
/// children, one column deeper.
pub open spec fn render_from(f: Seq<PassView>, i: nat, indent: Seq<char>) -> Seq<char>
    decreases f, f.len() - i,
{
    if i >= f.len() {
        Seq::empty()
    } else {
        let last = i + 1 == f.len();
        indent + connector_spec(last) + f[i as int].name + "\n"@ + render_from(
            f[i as int].children,
            0,
            indent + continuation_spec(last),
        ) + render_from(f, i + 1, indent)
    }
}

/// The drawing of a whole forest.
pub open spec fn render_spec(f: Seq<PassView>) -> Seq<char> {
    render_from(f, 0, margin_spec())
}

fn render_level(p: &Pipeline, indent: &String, out: &mut String)
    ensures
        final(out)@ == old(out)@ + render_from(p.forest(), 0, indent@),
    decreases p,
{
    let ghost start = out@;
    let ghost f = p.forest();
    let n: usize = p.passes.len();
    let mut i: usize = 0;
    while i < n
        invariant
            f == p.forest(),
            n == p.passes.len(),
            i <= n,
            out@ + render_from(f, i as nat, indent@) == start + render_from(f, 0, indent@),
        decreases n - i,
    {
        let ghost was = out@;
        let last = i + 1 == n;
        assert(f[i as int] == p.passes[i as int].tree());
        out.append(indent.as_str());
        out.append(
            if last {
                "┖─ "
            } else {
                "┠─ "
            },
        );
        match &p.passes[i] {
            Pass::Single(s) => {
                out.append(s.pass_name.as_str());
                out.append("\n");
                assert(render_from(f[i as int].children, 0, indent@ + continuation_spec(last))
                    =~= Seq::empty());
            },
            Pass::Nested { parent, pipeline } => {
                out.append(parent.pass_name.as_str());
                out.append("\n");
                let deeper = indent.clone().concat(
                    if last {
                        "   "
                    } else {
                        "┃  "
                    },
                );
                render_level(pipeline, &deeper, out);
            },
        }
        assert(out@ + render_from(f, (i + 1) as nat, indent@) =~= was + render_from(
            f,
            i as nat,
            indent@,
        ));
        i = i + 1;
    }
    assert(render_from(f, n as nat, indent@) =~= Seq::empty());
    assert(out@ + Seq::<char>::empty() =~= out@);
}

impl Pipeline {
    /// The pipeline drawn as a tree: one line per pass, each level indented
    /// below its parent.
    pub fn display(&self) -> (text: String)
        ensures
            text@ == render_spec(self.forest()),
    {
        let mut out = String::new();
        let indent = String::from_str("  ");
        render_level(self, &indent, &mut out);
        assert(Seq::<char>::empty() + render_from(self.forest(), 0, indent@) =~= render_spec(
            self.forest(),
        ));
        out
    }
}

} // verus!
