//! The options of the `generate!` bindings macro: how the options written in
//! the macro's input combine into a configuration of the generator, and
//! which WIT sources are read.
use vstd::prelude::*;
use vstd::string::*;

verus! {

broadcast use vstd::seq::group_seq_axioms;

/// The views of a sequence of strings.
pub open spec fn strings_view(v: Seq<String>) -> Seq<Seq<char>> {
    v.map_values(|s: String| s@)
}

/// The view of an optional string.
pub open spec fn opt_string_view(v: Option<String>) -> Option<Seq<char>> {
    match v {
        Some(s) => Some(s@),
        None => None,
    }
}

/// The source of the WIT package definition.
#[derive(Debug)]
pub enum Source {
    /// A path to a WIT directory.
    Path(String),
    /// Inline WIT text, with an optional path to a directory of its dependencies.
    Inline(String, Option<String>),
}

pub enum SourceView {
    Path(Seq<char>),
    Inline(Seq<char>, Option<Seq<char>>),
}

impl View for Source {
    type V = SourceView;

    open spec fn view(&self) -> SourceView {
        match self {
            Source::Path(p) => SourceView::Path(p@),
            Source::Inline(s, p) => SourceView::Inline(s@, opt_string_view(*p)),
        }
    }
}

/// How the bindings treat an interface: use the bindings at a module path,
/// or generate them.
#[derive(Debug)]
pub enum WithChoice {
    Path(String),
    Generate,
}

pub enum WithChoiceView {
    Path(Seq<char>),
    Generate,
}

impl View for WithChoice {
    type V = WithChoiceView;

    open spec fn view(&self) -> WithChoiceView {
        match self {
            WithChoice::Path(p) => WithChoiceView::Path(p@),
            WithChoice::Generate => WithChoiceView::Generate,
        }
    }
}

/// The views of a sequence of `with` entries.
pub open spec fn with_view(v: Seq<(String, WithChoice)>) -> Seq<(Seq<char>, WithChoiceView)> {
    v.map_values(|e: (String, WithChoice)| (e.0@, e.1@))
}

/// A crate whose path in the generated code can be configured.
#[derive(Clone, Copy, Debug, PartialEq, Eq, Structural)]
pub enum CratePath {
    Anyhow,
    Bitflags,
    Bytes,
    Futures,
    Tokio,
    Tracing,
    WasmTokio,
    WrpcTransport,
}

/// One option of the macro's braced input.
#[derive(Debug)]
pub enum Opt {
    /// `world: "..."`
    World(String),
    /// `path: "..."`
    Path(String),
    /// `inline: "..."`
    Inline(String),
    /// `skip: ["...", ...]`
    Skip(Vec<String>),
    /// `additional_derives: [path, ...]`, each path rendered as tokens
    AdditionalDerives(Vec<String>),
    /// `with: { "interface": path, ... }`
    With(Vec<(String, WithChoice)>),
    /// `generate_all`
    GenerateAll,
    /// `generate_unused_types: bool`
    GenerateUnusedTypes(bool),
    /// `anyhow_path: path` and the other crate paths, rendered as tokens
    CratePath(CratePath, String),
    /// `features: ["...", ...]`
    Features(Vec<String>),
}

pub enum OptView {
    World(Seq<char>),
    Path(Seq<char>),
    Inline(Seq<char>),
    Skip(Seq<Seq<char>>),
    AdditionalDerives(Seq<Seq<char>>),
    With(Seq<(Seq<char>, WithChoiceView)>),
    GenerateAll,
    GenerateUnusedTypes(bool),
    CratePath(CratePath, Seq<char>),
    Features(Seq<Seq<char>>),
}

impl View for Opt {
    type V = OptView;

    open spec fn view(&self) -> OptView {
        match self {
            Opt::World(s) => OptView::World(s@),
            Opt::Path(s) => OptView::Path(s@),
            Opt::Inline(s) => OptView::Inline(s@),
            Opt::Skip(l) => OptView::Skip(strings_view(l@)),
            Opt::AdditionalDerives(l) => OptView::AdditionalDerives(strings_view(l@)),
            Opt::With(w) => OptView::With(with_view(w@)),
            Opt::GenerateAll => OptView::GenerateAll,
            Opt::GenerateUnusedTypes(b) => OptView::GenerateUnusedTypes(*b),
            Opt::CratePath(c, p) => OptView::CratePath(*c, p@),
            Opt::Features(l) => OptView::Features(strings_view(l@)),
        }
    }
}

/// The options handed to the bindings generator.
#[derive(Debug)]
pub struct GeneratorOptions {
    pub skip: Vec<String>,
    pub additional_derive_attributes: Vec<String>,
    pub with: Vec<(String, WithChoice)>,
    pub generate_by_default: bool,
    pub generate_unused_types: bool,
    pub anyhow_path: Option<String>,
    pub bitflags_path: Option<String>,
    pub bytes_path: Option<String>,
    pub futures_path: Option<String>,
    pub tokio_path: Option<String>,
    pub tracing_path: Option<String>,
    pub wasm_tokio_path: Option<String>,
    pub wrpc_transport_path: Option<String>,
}

#[verifier::ext_equal]
pub struct GeneratorOptionsView {
    pub skip: Seq<Seq<char>>,
    pub additional_derive_attributes: Seq<Seq<char>>,
    pub with: Seq<(Seq<char>, WithChoiceView)>,
    pub generate_by_default: bool,
    pub generate_unused_types: bool,
    pub crate_paths: spec_fn(CratePath) -> Option<Seq<char>>,
}

impl View for GeneratorOptions {
    type V = GeneratorOptionsView;

    open spec fn view(&self) -> GeneratorOptionsView {
        GeneratorOptionsView {
            skip: strings_view(self.skip@),
            additional_derive_attributes: strings_view(self.additional_derive_attributes@),
            with: with_view(self.with@),
            generate_by_default: self.generate_by_default,
            generate_unused_types: self.generate_unused_types,
            crate_paths: |c: CratePath|
                match c {
                    CratePath::Anyhow => opt_string_view(self.anyhow_path),
                    CratePath::Bitflags => opt_string_view(self.bitflags_path),
                    CratePath::Bytes => opt_string_view(self.bytes_path),
                    CratePath::Futures => opt_string_view(self.futures_path),
                    CratePath::Tokio => opt_string_view(self.tokio_path),
                    CratePath::Tracing => opt_string_view(self.tracing_path),
                    CratePath::WasmTokio => opt_string_view(self.wasm_tokio_path),
                    CratePath::WrpcTransport => opt_string_view(self.wrpc_transport_path),
                },
        }
    }
}

/// The macro's configuration: the generator's options, the selected world,
/// the WIT source and the enabled WIT features.
#[derive(Debug)]
pub struct Config {
    pub opts: GeneratorOptions,
    pub world: Option<String>,
    pub source: Option<Source>,
    pub features: Vec<String>,
}

#[verifier::ext_equal]
pub struct ConfigView {
    pub opts: GeneratorOptionsView,
    pub world: Option<Seq<char>>,
    pub source: Option<SourceView>,
    pub features: Seq<Seq<char>>,
}

impl View for Config {
    type V = ConfigView;

    open spec fn view(&self) -> ConfigView {
        ConfigView {
            opts: self.opts@,
            world: opt_string_view(self.world),
            source: match self.source {
                Some(s) => Some(s@),
                None => None,
            },
            features: strings_view(self.features@),
        }
    }
}

/// Why an option is refused.
#[derive(Clone, Copy, Debug, PartialEq, Eq, Structural)]
pub enum ConfigError {
    /// A second `path` or `inline` where the source is already complete.
    SecondSource,
    /// A second `world`.
    SecondWorld,
}

impl ConfigError {
    /// The error's description.
    pub fn message(&self) -> (r: &'static str)
        ensures
            r@ == match *self {
                ConfigError::SecondSource => "cannot specify second source"@,
                ConfigError::SecondWorld => "cannot specify second world"@,
            },
    {
        match self {
            ConfigError::SecondSource => "cannot specify second source",
            ConfigError::SecondWorld => "cannot specify second world",
        }
    }
}

/// The configuration before any option: default generator options, no
/// world, no source, no features.
pub open spec fn initial_config() -> ConfigView {
    ConfigView {
        opts: GeneratorOptionsView {
            skip: Seq::empty(),
            additional_derive_attributes: Seq::empty(),
            with: Seq::empty(),
            generate_by_default: false,
            generate_unused_types: false,
            crate_paths: |c: CratePath| None,
        },
        world: None,
        source: None,
        features: Seq::empty(),
    }
}

/// The source after a `path` option.
pub open spec fn source_with_path(source: Option<SourceView>, p: Seq<char>) -> Result<SourceView, ConfigError> {
    match source {
        None => Ok(SourceView::Path(p)),
        Some(SourceView::Inline(i, None)) => Ok(SourceView::Inline(i, Some(p))),
        Some(_) => Err(ConfigError::SecondSource),
    }
}

/// The source after an `inline` option.
pub open spec fn source_with_inline(source: Option<SourceView>, i: Seq<char>) -> Result<SourceView, ConfigError> {
    match source {
        None => Ok(SourceView::Inline(i, None)),
        Some(SourceView::Path(p)) => Ok(SourceView::Inline(i, Some(p))),
        Some(_) => Err(ConfigError::SecondSource),
    }
}

/// The configuration after applying one option to `c`.
pub open spec fn apply_opt(c: ConfigView, opt: OptView) -> Result<ConfigView, ConfigError> {
    match opt {
        OptView::Path(p) => match source_with_path(c.source, p) {
            Ok(s) => Ok(ConfigView { source: Some(s), ..c }),
            Err(e) => Err(e),
        },
        OptView::Inline(i) => match source_with_inline(c.source, i) {
            Ok(s) => Ok(ConfigView { source: Some(s), ..c }),
            Err(e) => Err(e),
        },
        OptView::World(w) => if c.world is Some {
            Err(ConfigError::SecondWorld)
        } else {
            Ok(ConfigView { world: Some(w), ..c })
        },
        OptView::Skip(l) => Ok(
            ConfigView { opts: GeneratorOptionsView { skip: c.opts.skip + l, ..c.opts }, ..c },
        ),
        OptView::AdditionalDerives(l) => Ok(
            ConfigView {
                opts: GeneratorOptionsView { additional_derive_attributes: l, ..c.opts },
                ..c
            },
        ),
        OptView::With(w) => Ok(
            ConfigView { opts: GeneratorOptionsView { with: c.opts.with + w, ..c.opts }, ..c },
        ),
        OptView::GenerateAll => Ok(
            ConfigView { opts: GeneratorOptionsView { generate_by_default: true, ..c.opts }, ..c },
        ),
        OptView::GenerateUnusedTypes(b) => Ok(
            ConfigView { opts: GeneratorOptionsView { generate_unused_types: b, ..c.opts }, ..c },
        ),
        OptView::CratePath(k, p) => Ok(
            ConfigView {
                opts: GeneratorOptionsView {
                    crate_paths: |x: CratePath|
                        if x == k {
                            Some(p)
                        } else {
                            (c.opts.crate_paths)(x)
                        },
                    ..c.opts
                },
                ..c
            },
        ),
        OptView::Features(l) => Ok(ConfigView { features: c.features + l, ..c }),
    }
}

/// The configuration after applying `opts` in order to `c`, or the position
/// of the first refused option and why it is refused.
pub open spec fn apply_opts(c: ConfigView, opts: Seq<OptView>) -> Result<ConfigView, (int, ConfigError)>
    decreases opts.len(),
{
    if opts.len() == 0 {
        Ok(c)
    } else {
        match apply_opts(c, opts.drop_last()) {
            Err(x) => Err(x),
            Ok(c2) => match apply_opt(c2, opts.last()) {
                Ok(c3) => Ok(c3),
                Err(e) => Err((opts.len() - 1, e)),
            },
        }
    }
}

/// The views of a sequence of options.
pub open spec fn opts_view(opts: Seq<Opt>) -> Seq<OptView> {
    opts.map_values(|o: Opt| o@)
}

/// Once an option is refused, the options after it do not matter.
pub proof fn lemma_apply_opts_error_persists(c: ConfigView, opts: Seq<OptView>, k: int)
    requires
        0 <= k <= opts.len(),
        apply_opts(c, opts.take(k)) is Err,
    ensures
        apply_opts(c, opts) == apply_opts(c, opts.take(k)),
    decreases opts.len() - k,
{
    if k < opts.len() {
        let next = opts.take(k + 1);
        assert(next.drop_last() =~= opts.take(k));
        lemma_apply_opts_error_persists(c, opts, k + 1);
    } else {
        assert(opts.take(k) =~= opts);
    }
}

/// The reported option is the first refused one: the options before it
/// apply, and it is refused for the reported reason.
pub proof fn lemma_apply_opts_error_is_first(c: ConfigView, opts: Seq<OptView>)
    ensures
        apply_opts(c, opts) matches Err((i, e)) ==> 0 <= i < opts.len() && apply_opts(
            c,
            opts.take(i),
        ) is Ok && apply_opt(apply_opts(c, opts.take(i))->Ok_0, opts[i]) == Err::<
            ConfigView,
            ConfigError,
        >(e),
    decreases opts.len(),
{
    if opts.len() > 0 {
        lemma_apply_opts_error_is_first(c, opts.drop_last());
        if let Err((i, e)) = apply_opts(c, opts.drop_last()) {
            assert(opts.drop_last().take(i) =~= opts.take(i));
        } else {
            assert(opts.drop_last() =~= opts.take(opts.len() - 1));
        }
    }
}

/// A successful application applies every prefix successfully.
pub proof fn lemma_apply_opts_prefix_ok(c: ConfigView, opts: Seq<OptView>, k: int)
    requires
        0 <= k <= opts.len(),
        apply_opts(c, opts) is Ok,
    ensures
        apply_opts(c, opts.take(k)) is Ok,
{
    if apply_opts(c, opts.take(k)) is Err {
        lemma_apply_opts_error_persists(c, opts, k);
    }
}

/// Once a world is chosen, it stays chosen.
proof fn lemma_world_stays(c: ConfigView, opts: Seq<OptView>, i: int)
    requires
        0 <= i < opts.len(),
        opts[i] is World,
    ensures
        apply_opts(c, opts) matches Ok(c2) ==> c2.world is Some,
    decreases opts.len(),
{
    if i < opts.len() - 1 {
        lemma_world_stays(c, opts.drop_last(), i);
    }
}

/// A second `world` option is always refused.
pub proof fn lemma_second_world_refused(c: ConfigView, opts: Seq<OptView>, i: int, j: int)
    requires
        0 <= i < j < opts.len(),
        opts[i] is World,
        opts[j] is World,
    ensures
        apply_opts(c, opts) is Err,
{
    if apply_opts(c, opts) is Ok {
        lemma_apply_opts_prefix_ok(c, opts, j + 1);
        let t = opts.take(j + 1);
        assert(t.drop_last() =~= opts.take(j));
        lemma_world_stays(c, opts.take(j), i);
    }
}

/// A path and an inline source combine into inline text with a dependency
/// directory, in either order; a third source option is refused.
pub proof fn lemma_source_combination(c: ConfigView, p: Seq<char>, i: Seq<char>, third: OptView)
    requires
        c.source is None,
        third is Path || third is Inline,
    ensures
        apply_opts(c, seq![OptView::Path(p), OptView::Inline(i)]) matches Ok(c1) && c1.source
            == Some(SourceView::Inline(i, Some(p))),
        apply_opts(c, seq![OptView::Inline(i), OptView::Path(p)]) matches Ok(c2) && c2.source
            == Some(SourceView::Inline(i, Some(p))),
        apply_opts(c, seq![OptView::Path(p), OptView::Inline(i), third]) is Err,
        apply_opts(c, seq![OptView::Inline(i), OptView::Path(p), third]) is Err,
{
    let a = seq![OptView::Path(p), OptView::Inline(i)];
    let b = seq![OptView::Inline(i), OptView::Path(p)];
    assert(a.drop_last().drop_last() =~= Seq::<OptView>::empty());
    assert(b.drop_last().drop_last() =~= Seq::<OptView>::empty());
    assert(seq![OptView::Path(p), OptView::Inline(i), third].drop_last() =~= a);
    assert(seq![OptView::Inline(i), OptView::Path(p), third].drop_last() =~= b);
    reveal_with_fuel(apply_opts, 3);
}

/// The `features` lists of `opts`, concatenated in order.
pub open spec fn features_of(opts: Seq<OptView>) -> Seq<Seq<char>>
    decreases opts.len(),
{
    if opts.len() == 0 {
        Seq::empty()
    } else {
        features_of(opts.drop_last()) + match opts.last() {
            OptView::Features(l) => l,
            _ => Seq::empty(),
        }
    }
}

/// The `skip` lists of `opts`, concatenated in order.
pub open spec fn skip_of(opts: Seq<OptView>) -> Seq<Seq<char>>
    decreases opts.len(),
{
    if opts.len() == 0 {
        Seq::empty()
    } else {
        skip_of(opts.drop_last()) + match opts.last() {
            OptView::Skip(l) => l,
            _ => Seq::empty(),
        }
    }
}

/// The `with` entries of `opts`, concatenated in order.
pub open spec fn with_of(opts: Seq<OptView>) -> Seq<(Seq<char>, WithChoiceView)>
    decreases opts.len(),
{
    if opts.len() == 0 {
        Seq::empty()
    } else {
        with_of(opts.drop_last()) + match opts.last() {
            OptView::With(l) => l,
            _ => Seq::empty(),
        }
    }
}

/// Lists accumulate: the features, the skipped names and the `with` entries
/// of a configuration are those it had, then those of each option, in order.
pub proof fn lemma_lists_accumulate(c: ConfigView, opts: Seq<OptView>)
    ensures
        apply_opts(c, opts) matches Ok(c2) ==> c2.features == c.features + features_of(opts)
            && c2.opts.skip == c.opts.skip + skip_of(opts) && c2.opts.with == c.opts.with
            + with_of(opts),
    decreases opts.len(),
{
    if opts.len() > 0 {
        lemma_lists_accumulate(c, opts.drop_last());
        if let Ok(c1) = apply_opts(c, opts.drop_last()) {
            assert(c.features + features_of(opts.drop_last()) + match opts.last() {
                OptView::Features(l) => l,
                _ => Seq::empty(),
            } =~= c.features + features_of(opts));
            assert(c.opts.skip + skip_of(opts.drop_last()) + match opts.last() {
                OptView::Skip(l) => l,
                _ => Seq::empty(),
            } =~= c.opts.skip + skip_of(opts));
            assert(c.opts.with + with_of(opts.drop_last()) + match opts.last() {
                OptView::With(l) => l,
                _ => Seq::empty(),
            } =~= c.opts.with + with_of(opts));
        }
    }
}

/// What `with` entries mean: each interface mapped to its choice, a later
/// entry for an interface replacing an earlier one.
pub open spec fn with_map(entries: Seq<(Seq<char>, WithChoiceView)>) -> Map<Seq<char>, WithChoiceView>
    decreases entries.len(),
{
    if entries.len() == 0 {
        Map::empty()
    } else {
        with_map(entries.drop_last()).insert(entries.last().0, entries.last().1)
    }
}

/// The interfaces that `with` entries map are those that some entry names,
/// and the last entry for an interface decides its choice.
pub proof fn lemma_with_map_last_entry_wins(entries: Seq<(Seq<char>, WithChoiceView)>, k: Seq<char>, i: int)
    requires
        0 <= i < entries.len(),
        entries[i].0 == k,
        forall|j: int| i < j < entries.len() ==> (#[trigger] entries[j]).0 != k,
    ensures
        with_map(entries).contains_key(k),
        with_map(entries)[k] == entries[i].1,
    decreases entries.len(),
{
    if i < entries.len() - 1 {
        let d = entries.drop_last();
        assert forall|j: int| i < j < d.len() implies (#[trigger] d[j]).0 != k by {
            assert(d[j] == entries[j]);
        }
        lemma_with_map_last_entry_wins(d, k, i);
    }
}

/// An interface that no entry names is not mapped.
pub proof fn lemma_with_map_unnamed(entries: Seq<(Seq<char>, WithChoiceView)>, k: Seq<char>)
    requires
        forall|j: int| 0 <= j < entries.len() ==> (#[trigger] entries[j]).0 != k,
    ensures
        !with_map(entries).contains_key(k),
    decreases entries.len(),
{
    if entries.len() > 0 {
        let d = entries.drop_last();
        assert forall|j: int| 0 <= j < d.len() implies (#[trigger] d[j]).0 != k by {
            assert(d[j] == entries[j]);
        }
        lemma_with_map_unnamed(d, k);
    }
}

/// The `with` map of a configuration: the one it had, updated by every
/// option's entries in order.
pub proof fn lemma_config_with_map(c: ConfigView, opts: Seq<OptView>)
    ensures
        apply_opts(c, opts) matches Ok(c2) ==> with_map(c2.opts.with) == with_map(
            c.opts.with + with_of(opts),
        ),
{
    lemma_lists_accumulate(c, opts);
}

/// The path that `opts` finally give the crate `k`: the last one given, or `default`.
pub open spec fn last_crate_path(default: Option<Seq<char>>, opts: Seq<OptView>, k: CratePath) -> Option<Seq<char>>
    decreases opts.len(),
{
    if opts.len() == 0 {
        default
    } else {
        match opts.last() {
            OptView::CratePath(k2, p) => if k2 == k {
                Some(p)
            } else {
                last_crate_path(default, opts.drop_last(), k)
            },
            _ => last_crate_path(default, opts.drop_last(), k),
        }
    }
}

/// The derives that `opts` finally give: the last list given, or `default`.
pub open spec fn last_derives(default: Seq<Seq<char>>, opts: Seq<OptView>) -> Seq<Seq<char>>
    decreases opts.len(),
{
    if opts.len() == 0 {
        default
    } else {
        match opts.last() {
            OptView::AdditionalDerives(l) => l,
            _ => last_derives(default, opts.drop_last()),
        }
    }
}

/// Settings are replaced: each crate path and the additional derives are
/// the last ones given.
pub proof fn lemma_last_setting_wins(c: ConfigView, opts: Seq<OptView>, k: CratePath)
    ensures
        apply_opts(c, opts) matches Ok(c2) ==> (c2.opts.crate_paths)(k) == last_crate_path(
            (c.opts.crate_paths)(k),
            opts,
            k,
        ) && c2.opts.additional_derive_attributes == last_derives(
            c.opts.additional_derive_attributes,
            opts,
        ),
    decreases opts.len(),
{
    if opts.len() > 0 {
        lemma_last_setting_wins(c, opts.drop_last(), k);
    }
}

/// Whether unused types are generated after `opts`: the value of the last
/// `generate_unused_types` option, or `default` when there is none.
pub open spec fn last_unused_types(default: bool, opts: Seq<OptView>) -> bool
    decreases opts.len(),
{
    if opts.len() == 0 {
        default
    } else {
        match opts.last() {
            OptView::GenerateUnusedTypes(b) => b,
            _ => last_unused_types(default, opts.drop_last()),
        }
    }
}

/// Some option of `opts` is `generate_all`.
pub open spec fn has_generate_all(opts: Seq<OptView>) -> bool {
    exists|i: int| 0 <= i < opts.len() && #[trigger] opts[i] is GenerateAll
}

/// The generator's switches follow the options: unused types are generated
/// as the last `generate_unused_types` option says (as before when there is
/// none), and every interface is generated by default once `generate_all`
/// is given.
pub proof fn lemma_switches_follow_options(c: ConfigView, opts: Seq<OptView>)
    ensures
        apply_opts(c, opts) matches Ok(c2) ==> c2.opts.generate_unused_types == last_unused_types(
            c.opts.generate_unused_types,
            opts,
        ) && c2.opts.generate_by_default == (c.opts.generate_by_default || has_generate_all(opts)),
    decreases opts.len(),
{
    if opts.len() > 0 {
        let d = opts.drop_last();
        lemma_switches_follow_options(c, d);
        if has_generate_all(d) {
            let i = choose|i: int| 0 <= i < d.len() && #[trigger] d[i] is GenerateAll;
            assert(opts[i] == d[i]);
        }
        if has_generate_all(opts) && !(opts.last() is GenerateAll) {
            let i = choose|i: int| 0 <= i < opts.len() && #[trigger] opts[i] is GenerateAll;
            assert(d[i] == opts[i]);
        }
        if opts.last() is GenerateAll {
            assert(opts[opts.len() - 1] is GenerateAll);
        }
    }
}

/// The world after `opts`: the one a `world` option names, or `default`
/// when none does.
pub open spec fn last_world(default: Option<Seq<char>>, opts: Seq<OptView>) -> Option<Seq<char>>
    decreases opts.len(),
{
    if opts.len() == 0 {
        default
    } else {
        match opts.last() {
            OptView::World(w) => Some(w),
            _ => last_world(default, opts.drop_last()),
        }
    }
}

/// The selected world is the one that the `world` option names; without
/// one it stays as it was. A lone `path` option makes that directory the
/// source, and a lone `inline` option makes that text the source, with no
/// dependency directory; a second `path`, or a second `inline`, is refused.
pub proof fn lemma_world_and_source_follow_options(c: ConfigView, opts: Seq<OptView>, p: Seq<char>)
    ensures
        apply_opts(c, opts) matches Ok(c2) ==> c2.world == last_world(c.world, opts),
        c.source is None ==> (apply_opt(c, OptView::Path(p)) matches Ok(c3) && c3.source == Some(
            SourceView::Path(p),
        )),
        c.source is None ==> (apply_opt(c, OptView::Inline(p)) matches Ok(c4) && c4.source == Some(
            SourceView::Inline(p, None),
        )),
        c.source matches Some(SourceView::Path(_)) ==> apply_opt(c, OptView::Path(p)) == Err::<
            ConfigView,
            ConfigError,
        >(ConfigError::SecondSource),
        c.source matches Some(SourceView::Inline(_, _)) ==> apply_opt(c, OptView::Inline(p))
            == Err::<ConfigView, ConfigError>(ConfigError::SecondSource),
    decreases opts.len(),
{
    if opts.len() > 0 {
        lemma_world_and_source_follow_options(c, opts.drop_last(), p);
    }
}

impl Config {
    /// The configuration before any option.
    pub fn new() -> (r: Config)
        ensures
            r@ == initial_config(),
    {
        let r = Config {
            opts: GeneratorOptions {
                skip: Vec::new(),
                additional_derive_attributes: Vec::new(),
                with: Vec::new(),
                generate_by_default: false,
                generate_unused_types: false,
                anyhow_path: None,
                bitflags_path: None,
                bytes_path: None,
                futures_path: None,
                tokio_path: None,
                tracing_path: None,
                wasm_tokio_path: None,
                wrpc_transport_path: None,
            },
            world: None,
            source: None,
            features: Vec::new(),
        };
        assert(r@ =~= initial_config());
        r
    }

    /// Applies one option of the braced input. A refused option leaves the
    /// configuration unchanged.
    pub fn apply(&mut self, opt: Opt) -> (r: Result<(), ConfigError>)
        ensures
            match apply_opt(old(self)@, opt@) {
                Ok(c) => r is Ok && final(self)@ == c,
                Err(e) => r == Err::<(), ConfigError>(e) && final(self)@ == old(self)@,
            },
    {
        let ghost c = self@;
        match opt {
            Opt::Path(p) => {
                let current = self.source.take();
                match current {
                    None => {
                        self.source = Some(Source::Path(p));
                    },
                    Some(Source::Inline(i, None)) => {
                        self.source = Some(Source::Inline(i, Some(p)));
                    },
                    Some(other) => {
                        self.source = Some(other);
                        assert(self@ =~= c);
                        return Err(ConfigError::SecondSource);
                    },
                }
            },
            Opt::Inline(i) => {
                let current = self.source.take();
                match current {
                    None => {
                        self.source = Some(Source::Inline(i, None));
                    },
                    Some(Source::Path(p)) => {
                        self.source = Some(Source::Inline(i, Some(p)));
                    },
                    Some(other) => {
                        self.source = Some(other);
                        assert(self@ =~= c);
                        return Err(ConfigError::SecondSource);
                    },
                }
            },
            Opt::World(w) => {
                if self.world.is_some() {
                    return Err(ConfigError::SecondWorld);
                }
                self.world = Some(w);
            },
            Opt::Skip(mut l) => {
                self.opts.skip.append(&mut l);
            },
            Opt::AdditionalDerives(l) => {
                self.opts.additional_derive_attributes = l;
            },
            Opt::With(mut w) => {
                self.opts.with.append(&mut w);
            },
            Opt::GenerateAll => {
                self.opts.generate_by_default = true;
            },
            Opt::GenerateUnusedTypes(b) => {
                self.opts.generate_unused_types = b;
            },
            Opt::CratePath(k, p) => {
                match k {
                    CratePath::Anyhow => self.opts.anyhow_path = Some(p),
                    CratePath::Bitflags => self.opts.bitflags_path = Some(p),
                    CratePath::Bytes => self.opts.bytes_path = Some(p),
                    CratePath::Futures => self.opts.futures_path = Some(p),
                    CratePath::Tokio => self.opts.tokio_path = Some(p),
                    CratePath::Tracing => self.opts.tracing_path = Some(p),
                    CratePath::WasmTokio => self.opts.wasm_tokio_path = Some(p),
                    CratePath::WrpcTransport => self.opts.wrpc_transport_path = Some(p),
                }
            },
            Opt::Features(mut l) => {
                self.features.append(&mut l);
            },
        }
        assert(self@ =~= apply_opt(c, opt@).unwrap());
        Ok(())
    }

    /// The configuration of a braced input: its options applied in order.
    /// The first refused option is reported with its position.
    pub fn from_options(opts: Vec<Opt>) -> (r: Result<Config, (usize, ConfigError)>)
        ensures
            match apply_opts(initial_config(), opts_view(opts@)) {
                Ok(c) => r matches Ok(cfg) && cfg@ == c,
                Err((i, e)) => r matches Err((j, e2)) && j == i && e2 == e,
            },
    {
        let mut cfg = Config::new();
        let mut rest = opts;
        let ghost all = opts_view(rest@);
        let mut i: usize = 0;
        assert(all.take(0) =~= Seq::<OptView>::empty());
        assert(all.skip(0) =~= all);
        assert(all.len() == rest.len());
        while rest.len() > 0
            invariant
                i + rest@.len() == all.len(),
                all.len() <= usize::MAX,
                all == opts_view(opts@),
                opts_view(rest@) =~= all.skip(i as int),
                apply_opts(initial_config(), all.take(i as int)) == Ok::<ConfigView, (int, ConfigError)>(cfg@),
            decreases rest.len(),
        {
            let ghost before = rest@;
            let ghost cfg_before = cfg@;
            let opt = rest.remove(0);
            let ghost prefix = all.take(i + 1);
            assert(prefix.drop_last() =~= all.take(i as int));
            assert(opts_view(before)[0] == all.skip(i as int)[0]);
            assert(prefix.last() == opt@);
            assert forall|k: int| 0 <= k < rest@.len() implies opts_view(rest@)[k] == all.skip(
                i + 1,
            )[k] by {
                assert(rest@[k] == before[k + 1]);
                assert(opts_view(before)[k + 1] == all.skip(i as int)[k + 1]);
            }
            assert(opts_view(rest@) =~= all.skip(i + 1));
            match cfg.apply(opt) {
                Ok(()) => {},
                Err(e) => {
                    proof {
                        assert(apply_opt(cfg_before, opt@) == Err::<ConfigView, ConfigError>(e));
                        assert(apply_opts(initial_config(), prefix) == Err::<ConfigView, (int, ConfigError)>((i as int, e)));
                        lemma_apply_opts_error_persists(initial_config(), all, i + 1);
                    }
                    return Err((i, e));
                },
            }
            i = i + 1;
        }
        assert(all.take(i as int) =~= all);
        assert(all == opts_view(opts@));
        Ok(cfg)
    }

    /// The configuration of the input without braces: an optional world,
    /// then optionally `in` and the path of the WIT directory.
    pub fn from_world_and_path(world: Option<String>, path: Option<String>) -> (r: Config)
        ensures
            r@ == (ConfigView {
                world: opt_string_view(world),
                source: match path {
                    Some(p) => Some(SourceView::Path(p@)),
                    None => None,
                },
                ..initial_config()
            }),
    {
        let mut cfg = Config::new();
        cfg.world = world;
        cfg.source = match path {
            Some(p) => Some(Source::Path(p)),
            None => None,
        };
        assert(cfg@ =~= (ConfigView {
            world: opt_string_view(world),
            source: match path {
                Some(p) => Some(SourceView::Path(p@)),
                None => None,
            },
            ..initial_config()
        }));
        cfg
    }
}

} // verus!
