//! What the `generate!` macro does around the generator: which WIT sources
//! it loads, the text of its errors, and the lines that make the compiler
//! track the WIT files that were read.
use vstd::prelude::*;
use vstd::string::*;
use crate::bindgen::{opt_string_view, Source, SourceView};

verus! {

broadcast use vstd::seq::group_seq_axioms;

/// The main WIT package to load.
#[derive(Debug)]
pub enum WitLoad {
    /// A WIT directory, relative to the crate's manifest directory.
    Directory(String),
    /// WIT text given in the macro's input.
    Inline(String),
}

pub enum WitLoadView {
    Directory(Seq<char>),
    Inline(Seq<char>),
}

impl View for WitLoad {
    type V = WitLoadView;

    open spec fn view(&self) -> WitLoadView {
        match self {
            WitLoad::Directory(d) => WitLoadView::Directory(d@),
            WitLoad::Inline(s) => WitLoadView::Inline(s@),
        }
    }
}

/// The WIT sources to load, in order: first the dependency directory, if
/// any, then the main package, whose packages are the ones bindings are
/// generated for.
#[derive(Debug)]
pub struct SourcePlan {
    pub dependencies: Option<String>,
    pub main: WitLoad,
}

pub struct SourcePlanView {
    pub dependencies: Option<Seq<char>>,
    pub main: WitLoadView,
}

impl View for SourcePlan {
    type V = SourcePlanView;

    open spec fn view(&self) -> SourcePlanView {
        SourcePlanView { dependencies: opt_string_view(self.dependencies), main: self.main@ }
    }
}

/// The plan for a source: inline text after its optional dependency
/// directory; a given directory; and the directory `wit` when no source is given.
pub open spec fn plan_of(source: Option<SourceView>) -> SourcePlanView {
    match source {
        Some(SourceView::Inline(s, deps)) => SourcePlanView {
            dependencies: deps,
            main: WitLoadView::Inline(s),
        },
        Some(SourceView::Path(p)) => SourcePlanView {
            dependencies: None,
            main: WitLoadView::Directory(p),
        },
        None => SourcePlanView { dependencies: None, main: WitLoadView::Directory("wit"@) },
    }
}

/// The sources to load for the configured `source`.
pub fn source_plan(source: Option<Source>) -> (r: SourcePlan)
    ensures
        r@ == plan_of(
            match source {
                Some(s) => Some(s@),
                None => None,
            },
        ),
{
    match source {
        Some(Source::Inline(s, deps)) => SourcePlan { dependencies: deps, main: WitLoad::Inline(s) },
        Some(Source::Path(p)) => SourcePlan { dependencies: None, main: WitLoad::Directory(p) },
        None => SourcePlan {
            dependencies: None,
            main: WitLoad::Directory(<String as StringExecFns>::from_str("wit")),
        },
    }
}

/// Only the sources that the configuration names are loaded: a dependency
/// directory is loaded exactly when inline text was given together with
/// one, and it is that directory; the main package is the inline text or
/// the directory that was given; and the default directory `wit` is the
/// main package only when no source was given at all.
pub proof fn lemma_plan_loads_given_sources(source: Option<SourceView>)
    ensures
        plan_of(source).dependencies matches Some(d) ==> source matches Some(
            SourceView::Inline(_, Some(e)),
        ) && e == d,
        source matches Some(SourceView::Inline(s, deps)) ==> plan_of(source).dependencies == deps
            && plan_of(source).main == WitLoadView::Inline(s),
        source matches Some(SourceView::Path(p)) ==> plan_of(source).dependencies is None
            && plan_of(source).main == WitLoadView::Directory(p),
        source is None ==> plan_of(source).dependencies is None && plan_of(source).main
            == WitLoadView::Directory("wit"@),
        plan_of(source).main is Directory ==> !(source matches Some(SourceView::Inline(_, _))),
{
}

/// The views of a sequence of strings.
pub open spec fn views(v: Seq<String>) -> Seq<Seq<char>> {
    v.map_values(|s: String| s@)
}

/// The causes of an error, each after a `Caused by:` header.
pub open spec fn caused_by(causes: Seq<Seq<char>>) -> Seq<char>
    decreases causes.len(),
{
    if causes.len() == 0 {
        Seq::empty()
    } else {
        caused_by(causes.drop_last()) + "\n\nCaused by:\n  "@ + causes.last()
    }
}

/// The text of an error with its chain of causes: the error's own message,
/// then each cause in order.
pub fn error_chain_message(message: &str, causes: &Vec<String>) -> (r: String)
    ensures
        r@ == message@ + caused_by(views(causes@)),
{
    let mut msg = <String as StringExecFns>::from_str(message);
    let ghost cs = views(causes@);
    let mut i: usize = 0;
    assert(cs.take(0) =~= Seq::<Seq<char>>::empty());
    while i < causes.len()
        invariant
            cs == views(causes@),
            i <= causes.len(),
            msg@ == message@ + caused_by(cs.take(i as int)),
        decreases causes.len() - i,
    {
        msg.append("\n\nCaused by:\n  ");
        msg.append(causes[i].as_str());
        proof {
            assert(cs.take(i + 1).drop_last() =~= cs.take(i as int));
        }
        i = i + 1;
    }
    assert(cs.take(i as int) =~= cs);
    msg
}

/// The line that makes the compiler rebuild when the file `f` changes.
pub open spec fn include_line(f: Seq<char>) -> Seq<char> {
    "const _: &[u8] = include_bytes!(r#\""@ + f + "\"#);\n"@
}

/// The include lines of `files`, in order.
pub open spec fn include_lines(files: Seq<Seq<char>>) -> Seq<char>
    decreases files.len(),
{
    if files.len() == 0 {
        Seq::empty()
    } else {
        include_lines(files.drop_last()) + include_line(files.last())
    }
}

/// The code appended to the generated bindings so that the compiler tracks
/// every WIT file that was read.
pub fn dependency_includes(files: &Vec<String>) -> (r: String)
    ensures
        r@ == include_lines(views(files@)),
{
    let mut out = String::new();
    let ghost fs = views(files@);
    let mut i: usize = 0;
    assert(fs.take(0) =~= Seq::<Seq<char>>::empty());
    while i < files.len()
        invariant
            fs == views(files@),
            i <= files.len(),
            out@ == include_lines(fs.take(i as int)),
        decreases files.len() - i,
    {
        out.append("const _: &[u8] = include_bytes!(r#\"");
        out.append(files[i].as_str());
        out.append("\"#);\n");
        proof {
            assert(fs.take(i + 1).drop_last() =~= fs.take(i as int));
        }
        i = i + 1;
    }
    assert(fs.take(i as int) =~= fs);
    out
}

} // verus!
