//! The vocabulary of the `generate!` macro's braced input: the option
//! keywords, and the module paths that a `with` entry names.
use vstd::prelude::*;
use vstd::string::*;
use crate::bindgen::{CratePath, WithChoice, WithChoiceView};

verus! {

broadcast use vstd::seq::group_seq_axioms;

/// `name` and `lit` are the same text.
fn same_text(name: &str, lit: &str) -> (r: bool)
    ensures
        r == (name@ == lit@),
{
    let a = <String as StringExecFns>::from_str(name);
    let b = <String as StringExecFns>::from_str(lit);
    a == b
}

/// The keyword that starts an option.
#[derive(Clone, Copy, Debug, PartialEq, Eq, Structural)]
pub enum OptKeyword {
    Path,
    Inline,
    World,
    Skip,
    AdditionalDerives,
    With,
    GenerateAll,
    GenerateUnusedTypes,
    CratePath(CratePath),
    Features,
}

/// The option keyword spelled `name`, if any.
pub open spec fn keyword_of(name: Seq<char>) -> Option<OptKeyword> {
    if name == "path"@ {
        Some(OptKeyword::Path)
    } else if name == "inline"@ {
        Some(OptKeyword::Inline)
    } else if name == "world"@ {
        Some(OptKeyword::World)
    } else if name == "skip"@ {
        Some(OptKeyword::Skip)
    } else if name == "additional_derives"@ {
        Some(OptKeyword::AdditionalDerives)
    } else if name == "with"@ {
        Some(OptKeyword::With)
    } else if name == "generate_all"@ {
        Some(OptKeyword::GenerateAll)
    } else if name == "generate_unused_types"@ {
        Some(OptKeyword::GenerateUnusedTypes)
    } else if name == "anyhow_path"@ {
        Some(OptKeyword::CratePath(CratePath::Anyhow))
    } else if name == "bitflags_path"@ {
        Some(OptKeyword::CratePath(CratePath::Bitflags))
    } else if name == "bytes_path"@ {
        Some(OptKeyword::CratePath(CratePath::Bytes))
    } else if name == "futures_path"@ {
        Some(OptKeyword::CratePath(CratePath::Futures))
    } else if name == "tokio_path"@ {
        Some(OptKeyword::CratePath(CratePath::Tokio))
    } else if name == "tracing_path"@ {
        Some(OptKeyword::CratePath(CratePath::Tracing))
    } else if name == "wasm_tokio_path"@ {
        Some(OptKeyword::CratePath(CratePath::WasmTokio))
    } else if name == "wrpc_transport_path"@ {
        Some(OptKeyword::CratePath(CratePath::WrpcTransport))
    } else if name == "features"@ {
        Some(OptKeyword::Features)
    } else {
        None
    }
}

/// The option keyword spelled `name`, if any.
pub fn opt_keyword(name: &str) -> (r: Option<OptKeyword>)
    ensures
        r == keyword_of(name@),
{
    if same_text(name, "path") {
        Some(OptKeyword::Path)
    } else if same_text(name, "inline") {
        Some(OptKeyword::Inline)
    } else if same_text(name, "world") {
        Some(OptKeyword::World)
    } else if same_text(name, "skip") {
        Some(OptKeyword::Skip)
    } else if same_text(name, "additional_derives") {
        Some(OptKeyword::AdditionalDerives)
    } else if same_text(name, "with") {
        Some(OptKeyword::With)
    } else if same_text(name, "generate_all") {
        Some(OptKeyword::GenerateAll)
    } else if same_text(name, "generate_unused_types") {
        Some(OptKeyword::GenerateUnusedTypes)
    } else if same_text(name, "anyhow_path") {
        Some(OptKeyword::CratePath(CratePath::Anyhow))
    } else if same_text(name, "bitflags_path") {
        Some(OptKeyword::CratePath(CratePath::Bitflags))
    } else if same_text(name, "bytes_path") {
        Some(OptKeyword::CratePath(CratePath::Bytes))
    } else if same_text(name, "futures_path") {
        Some(OptKeyword::CratePath(CratePath::Futures))
    } else if same_text(name, "tokio_path") {
        Some(OptKeyword::CratePath(CratePath::Tokio))
    } else if same_text(name, "tracing_path") {
        Some(OptKeyword::CratePath(CratePath::Tracing))
    } else if same_text(name, "wasm_tokio_path") {
        Some(OptKeyword::CratePath(CratePath::WasmTokio))
    } else if same_text(name, "wrpc_transport_path") {
        Some(OptKeyword::CratePath(CratePath::WrpcTransport))
    } else if same_text(name, "features") {
        Some(OptKeyword::Features)
    } else {
        None
    }
}

/// The name of the crate whose path a crate-path option sets.
pub open spec fn crate_name(c: CratePath) -> Seq<char> {
    match c {
        CratePath::Anyhow => "anyhow"@,
        CratePath::Bitflags => "bitflags"@,
        CratePath::Bytes => "bytes"@,
        CratePath::Futures => "futures"@,
        CratePath::Tokio => "tokio"@,
        CratePath::Tracing => "tracing"@,
        CratePath::WasmTokio => "wasm_tokio"@,
        CratePath::WrpcTransport => "wrpc_transport"@,
    }
}

/// How the option `k` is written in the macro's input; a crate-path option
/// is the crate's name followed by `_path`.
pub open spec fn spelling(k: OptKeyword) -> Seq<char> {
    match k {
        OptKeyword::Path => "path"@,
        OptKeyword::Inline => "inline"@,
        OptKeyword::World => "world"@,
        OptKeyword::Skip => "skip"@,
        OptKeyword::AdditionalDerives => "additional_derives"@,
        OptKeyword::With => "with"@,
        OptKeyword::GenerateAll => "generate_all"@,
        OptKeyword::GenerateUnusedTypes => "generate_unused_types"@,
        OptKeyword::CratePath(c) => crate_name(c) + "_path"@,
        OptKeyword::Features => "features"@,
    }
}

/// Each option is recognised by its own spelling and by no other: the word
/// written for an option gives that option, and a word that gives an option
/// is that option's spelling. So `<crate>_path` sets the path of that crate,
/// and distinct words never select the same option.
pub proof fn lemma_keywords_match_spellings(name: Seq<char>, k: OptKeyword)
    ensures
        keyword_of(spelling(k)) == Some(k),
        keyword_of(name) == Some(k) ==> name == spelling(k),
{
    reveal_strlit("path");
    reveal_strlit("inline");
    reveal_strlit("world");
    reveal_strlit("skip");
    reveal_strlit("additional_derives");
    reveal_strlit("with");
    reveal_strlit("generate_all");
    reveal_strlit("generate_unused_types");
    reveal_strlit("anyhow_path");
    reveal_strlit("bitflags_path");
    reveal_strlit("bytes_path");
    reveal_strlit("futures_path");
    reveal_strlit("tokio_path");
    reveal_strlit("tracing_path");
    reveal_strlit("wasm_tokio_path");
    reveal_strlit("wrpc_transport_path");
    reveal_strlit("features");
    reveal_strlit("anyhow");
    reveal_strlit("bitflags");
    reveal_strlit("bytes");
    reveal_strlit("futures");
    reveal_strlit("tokio");
    reveal_strlit("tracing");
    reveal_strlit("wasm_tokio");
    reveal_strlit("wrpc_transport");
    reveal_strlit("_path");
    let w = spelling(k);
    // The spellings differ in length or in their first letter.
    assert("path"@.len() == 4 && "path"@[0] == 'p');
    assert("inline"@.len() == 6 && "inline"@[0] == 'i');
    assert("world"@.len() == 5 && "world"@[0] == 'w');
    assert("skip"@.len() == 4 && "skip"@[0] == 's');
    assert("additional_derives"@.len() == 18 && "additional_derives"@[0] == 'a');
    assert("with"@.len() == 4 && "with"@[0] == 'w');
    assert("generate_all"@.len() == 12 && "generate_all"@[0] == 'g');
    assert("generate_unused_types"@.len() == 21 && "generate_unused_types"@[0] == 'g');
    assert("anyhow_path"@.len() == 11 && "anyhow_path"@[0] == 'a');
    assert("bitflags_path"@.len() == 13 && "bitflags_path"@[0] == 'b');
    assert("bytes_path"@.len() == 10 && "bytes_path"@[0] == 'b');
    assert("futures_path"@.len() == 12 && "futures_path"@[0] == 'f');
    assert("tokio_path"@.len() == 10 && "tokio_path"@[0] == 't');
    assert("tracing_path"@.len() == 12 && "tracing_path"@[0] == 't');
    assert("wasm_tokio_path"@.len() == 15 && "wasm_tokio_path"@[0] == 'w');
    assert("wrpc_transport_path"@.len() == 19 && "wrpc_transport_path"@[0] == 'w');
    assert("features"@.len() == 8 && "features"@[0] == 'f');
    if let OptKeyword::CratePath(c) = k {
        let t = match c {
            CratePath::Anyhow => "anyhow_path"@,
            CratePath::Bitflags => "bitflags_path"@,
            CratePath::Bytes => "bytes_path"@,
            CratePath::Futures => "futures_path"@,
            CratePath::Tokio => "tokio_path"@,
            CratePath::Tracing => "tracing_path"@,
            CratePath::WasmTokio => "wasm_tokio_path"@,
            CratePath::WrpcTransport => "wrpc_transport_path"@,
        };
        assert(w =~= t);
    }
}

impl OptKeyword {
    /// Whether a colon and a value follow the keyword: every option but
    /// `generate_all` has one.
    pub fn takes_value(&self) -> (r: bool)
        ensures
            r == !(*self is GenerateAll),
    {
        match self {
            OptKeyword::GenerateAll => false,
            _ => true,
        }
    }
}

/// One segment of a module path.
#[derive(Debug)]
pub struct PathSegment {
    pub ident: String,
    /// The segment carries generic arguments (`<..>`) or parenthesized ones.
    pub has_arguments: bool,
}

pub struct PathSegmentView {
    pub ident: Seq<char>,
    pub has_arguments: bool,
}

impl View for PathSegment {
    type V = PathSegmentView;

    open spec fn view(&self) -> PathSegmentView {
        PathSegmentView { ident: self.ident@, has_arguments: self.has_arguments }
    }
}

/// The views of a sequence of segments.
pub open spec fn segments_view(segs: Seq<PathSegment>) -> Seq<PathSegmentView> {
    segs.map_values(|s: PathSegment| s@)
}

/// The path is the single identifier `generate`.
pub open spec fn is_generate(leading_colon: bool, segs: Seq<PathSegmentView>) -> bool {
    &&& !leading_colon
    &&& segs.len() == 1
    &&& !segs[0].has_arguments
    &&& segs[0].ident == "generate"@
}

/// The identifiers of `segs` joined by `::`.
pub open spec fn joined(segs: Seq<PathSegmentView>) -> Seq<char>
    decreases segs.len(),
{
    if segs.len() == 0 {
        Seq::empty()
    } else if segs.len() == 1 {
        segs[0].ident
    } else {
        joined(segs.drop_last()) + "::"@ + segs.last().ident
    }
}

/// The rendering of a module path: `::` for a leading colon, then the joined identifiers.
pub open spec fn rendered_path(leading_colon: bool, segs: Seq<PathSegmentView>) -> Seq<char> {
    (if leading_colon {
        "::"@
    } else {
        Seq::empty()
    }) + joined(segs)
}

/// Some segment carries arguments.
pub open spec fn has_arguments(segs: Seq<PathSegmentView>) -> bool {
    exists|i: int| 0 <= i < segs.len() && #[trigger] segs[i].has_arguments
}

/// Only the path written `generate` asks for generated bindings: such a
/// path carries no arguments and renders as `generate`, and a single
/// identifier without arguments asks for them exactly when it is
/// `generate`; any other one names the module it renders as, itself.
pub proof fn lemma_generate_only_for_generate(leading_colon: bool, segs: Seq<PathSegmentView>, x: Seq<char>)
    ensures
        is_generate(leading_colon, segs) ==> !has_arguments(segs) && rendered_path(
            leading_colon,
            segs,
        ) == "generate"@,
        is_generate(false, seq![PathSegmentView { ident: x, has_arguments: false }]) <==> x
            == "generate"@,
        !has_arguments(seq![PathSegmentView { ident: x, has_arguments: false }]),
        rendered_path(false, seq![PathSegmentView { ident: x, has_arguments: false }]) == x,
{
    let one = seq![PathSegmentView { ident: x, has_arguments: false }];
    assert(Seq::<char>::empty() + x =~= x);
    assert(Seq::<char>::empty() + "generate"@ =~= "generate"@);
    assert(one[0].ident == x);
}

/// A module path renders as written: a leading `::` when it has one, then
/// its identifiers separated by `::`.
pub proof fn lemma_rendered_path_segments(leading_colon: bool, segs: Seq<PathSegmentView>, s: PathSegmentView)
    ensures
        rendered_path(true, segs) == "::"@ + rendered_path(false, segs),
        segs.len() > 0 ==> rendered_path(leading_colon, segs.push(s)) == rendered_path(
            leading_colon,
            segs,
        ) + "::"@ + s.ident,
        segs.len() == 0 ==> rendered_path(false, segs.push(s)) == s.ident,
{
    let t = segs.push(s);
    assert(t.drop_last() =~= segs);
    assert(Seq::<char>::empty() + joined(segs) =~= joined(segs));
    assert(Seq::<char>::empty() + joined(t) =~= joined(t));
    if segs.len() > 0 {
        let lead: Seq<char> = if leading_colon { "::"@ } else { Seq::empty() };
        assert(lead + (joined(segs) + "::"@ + s.ident) =~= lead + joined(segs) + "::"@ + s.ident);
    } else {
        assert(t[0] == s);
    }
}

/// A path with arguments in any of its segments is refused: it carries
/// arguments and is not the path `generate`.
pub proof fn lemma_arguments_refused(leading_colon: bool, segs: Seq<PathSegmentView>, i: int)
    requires
        0 <= i < segs.len(),
        segs[i].has_arguments,
    ensures
        has_arguments(segs),
        !is_generate(leading_colon, segs),
{
}

/// A module path with generic or parenthesized arguments.
#[derive(Clone, Copy, Debug, PartialEq, Eq, Structural)]
pub struct WithPathError;

impl WithPathError {
    /// The error's description.
    pub fn message(&self) -> (r: &'static str)
        ensures
            r@ == "Module path must not contain angles or parens"@,
    {
        "Module path must not contain angles or parens"
    }
}

/// What a `with` entry's path asks for: `generate` asks for generated
/// bindings; any other path names the module of existing bindings, and may
/// not carry arguments.
pub fn with_choice(leading_colon: bool, segments: &Vec<PathSegment>) -> (r: Result<WithChoice, WithPathError>)
    ensures
        is_generate(leading_colon, segments_view(segments@)) ==> (r matches Ok(c) && c@
            == WithChoiceView::Generate),
        !is_generate(leading_colon, segments_view(segments@)) && has_arguments(segments_view(segments@)) ==> r is Err,
        !is_generate(leading_colon, segments_view(segments@)) && !has_arguments(
            segments_view(segments@),
        ) ==> (r matches Ok(c) && c@ == WithChoiceView::Path(
            rendered_path(leading_colon, segments_view(segments@)),
        )),
{
    let ghost segs = segments_view(segments@);
    if !leading_colon && segments.len() == 1 && !segments[0].has_arguments && same_text(
        segments[0].ident.as_str(),
        "generate",
    ) {
        return Ok(WithChoice::Generate);
    }
    let mut buf = String::new();
    if leading_colon {
        buf.append("::");
    }
    let ghost lead: Seq<char> = if leading_colon { "::"@ } else { Seq::empty() };
    let mut i: usize = 0;
    assert(segs.take(0) =~= Seq::<PathSegmentView>::empty());
    while i < segments.len()
        invariant
            segs == segments_view(segments@),
            i <= segments.len(),
            buf@ == lead + joined(segs.take(i as int)),
            forall|k: int| 0 <= k < i ==> !(#[trigger] segs[k]).has_arguments,
        decreases segments.len() - i,
    {
        if segments[i].has_arguments {
            assert(segs[i as int].has_arguments);
            return Err(WithPathError);
        }
        let ghost before = buf@;
        if i > 0 {
            buf.append("::");
        }
        buf.append(segments[i].ident.as_str());
        proof {
            let t = segs.take(i + 1);
            assert(t.drop_last() =~= segs.take(i as int));
            if i == 0 {
                assert(segs.take(0) =~= Seq::<PathSegmentView>::empty());
            }
            assert(buf@ =~= lead + joined(t));
        }
        i = i + 1;
    }
    assert(segs.take(i as int) =~= segs);
    Ok(WithChoice::Path(buf))
}

} // verus!
