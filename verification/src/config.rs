//! The configuration of the linter.
//!
//! It follows a subset of the configuration of
//! [`typos`](https://crates.io/crates/typos-cli): which files to walk, whether
//! to check a file, and which strings to leave alone. A configuration is built
//! up in layers: each layer is merged into what came before with `update`.
use vstd::prelude::*;

use crate::lang::{Language, Mapping};
use crate::pattern::{pattern_texts, IgnorePattern};
use crate::text::same_text;

verus! {

/// The texts of `strings`, in order.
pub open spec fn texts(strings: Seq<String>) -> Seq<Seq<char>> {
    strings.map_values(|s: String| s@)
}

/// The first of the two settings that is given.
pub open spec fn either(first: Option<bool>, second: Option<bool>) -> Option<bool> {
    if first is Some {
        first
    } else {
        second
    }
}

/// Defines how to ignore files from being checked by the linter.
///
/// A setting that is not given falls back on a wider one: `.ignore` files,
/// those of a version control system and those of parent directories on
/// `ignore_files`, the global ones on `ignore_vcs` and then on `ignore_files`.
/// What nothing settles is `true`.
#[derive(Debug, PartialEq, Eq)]
pub struct Walk {
    /// Additional list of regexes to exclude files from being checked
    pub extend_exclude: Vec<String>,
    /// Skip hidden files and directories.
    pub ignore_hidden: Option<bool>,
    /// Respect ignore files.
    pub ignore_files: Option<bool>,
    /// Respect .ignore files.
    pub ignore_dot: Option<bool>,
    /// Respect ignore files in vcs directories.
    pub ignore_vcs: Option<bool>,
    /// Respect global ignore files.
    pub ignore_global: Option<bool>,
    /// Respect ignore files in parent directories.
    pub ignore_parent: Option<bool>,
}

/// What a [`Walk`] holds.
pub struct WalkView {
    pub extend_exclude: Seq<Seq<char>>,
    pub ignore_hidden: Option<bool>,
    pub ignore_files: Option<bool>,
    pub ignore_dot: Option<bool>,
    pub ignore_vcs: Option<bool>,
    pub ignore_global: Option<bool>,
    pub ignore_parent: Option<bool>,
}

impl WalkView {
    /// This configuration with `source` laid over it.
    ///
    /// The exclusions of `source` come after the ones held. A setting that
    /// `source` gives replaces the one held, and a wide setting that `source`
    /// gives clears the narrower ones held, which `source` may then give anew.
    pub open spec fn updated(self, source: WalkView) -> WalkView {
        let files = source.ignore_files is Some;
        let vcs = source.ignore_vcs is Some;
        WalkView {
            extend_exclude: self.extend_exclude + source.extend_exclude,
            ignore_hidden: either(source.ignore_hidden, self.ignore_hidden),
            ignore_files: either(source.ignore_files, self.ignore_files),
            ignore_dot: either(
                source.ignore_dot,
                if files {
                    None
                } else {
                    self.ignore_dot
                },
            ),
            ignore_vcs: either(
                source.ignore_vcs,
                if files {
                    None
                } else {
                    self.ignore_vcs
                },
            ),
            ignore_global: either(
                source.ignore_global,
                if files || vcs {
                    None
                } else {
                    self.ignore_global
                },
            ),
            ignore_parent: either(
                source.ignore_parent,
                if files {
                    None
                } else {
                    self.ignore_parent
                },
            ),
        }
    }

    /// Whether hidden files and directories are skipped.
    pub open spec fn skips_hidden(self) -> bool {
        self.ignore_hidden.unwrap_or(true)
    }

    /// Whether `.ignore` files are respected.
    pub open spec fn respects_dot(self) -> bool {
        either(self.ignore_dot, self.ignore_files).unwrap_or(true)
    }

    /// Whether the ignore files of a version control system are respected.
    pub open spec fn respects_vcs(self) -> bool {
        either(self.ignore_vcs, self.ignore_files).unwrap_or(true)
    }

    /// Whether global ignore files are respected.
    pub open spec fn respects_global(self) -> bool {
        either(self.ignore_global, either(self.ignore_vcs, self.ignore_files)).unwrap_or(true)
    }

    /// Whether ignore files in parent directories are respected.
    pub open spec fn respects_parent(self) -> bool {
        either(self.ignore_parent, self.ignore_files).unwrap_or(true)
    }
}

impl View for Walk {
    type V = WalkView;

    open spec fn view(&self) -> WalkView {
        WalkView {
            extend_exclude: texts(self.extend_exclude@),
            ignore_hidden: self.ignore_hidden,
            ignore_files: self.ignore_files,
            ignore_dot: self.ignore_dot,
            ignore_vcs: self.ignore_vcs,
            ignore_global: self.ignore_global,
            ignore_parent: self.ignore_parent,
        }
    }
}

impl Walk {
    /// What a walk starts from: no exclusion, and every kind of file that
    /// tells what to ignore is respected.
    pub open spec fn default_view() -> WalkView {
        WalkView {
            extend_exclude: Seq::empty(),
            ignore_hidden: Some(true),
            ignore_files: Some(true),
            ignore_dot: Some(true),
            ignore_vcs: Some(true),
            ignore_global: Some(true),
            ignore_parent: Some(true),
        }
    }
}

impl Default for Walk {
    fn default() -> (walk: Self)
        ensures
            walk@ == Walk::default_view(),
    {
        let walk = Walk {
            extend_exclude: Vec::new(),
            ignore_hidden: Some(true),
            ignore_files: Some(true),
            ignore_dot: Some(true),
            ignore_vcs: Some(true),
            ignore_global: Some(true),
            ignore_parent: Some(true),
        };
        assert(walk@.extend_exclude =~= Seq::empty());
        walk
    }
}

impl Clone for Walk {
    fn clone(&self) -> (copy: Self)
        ensures
            copy@ == self@,
    {
        let mut extend_exclude: Vec<String> = Vec::new();
        append_strings(&mut extend_exclude, &self.extend_exclude);
        assert(texts(extend_exclude@) =~= texts(self.extend_exclude@));
        Walk {
            extend_exclude,
            ignore_hidden: self.ignore_hidden,
            ignore_files: self.ignore_files,
            ignore_dot: self.ignore_dot,
            ignore_vcs: self.ignore_vcs,
            ignore_global: self.ignore_global,
            ignore_parent: self.ignore_parent,
        }
    }
}

/// Puts a copy of each string of `more` at the end of `strings`.
pub fn append_strings(strings: &mut Vec<String>, more: &Vec<String>)
    ensures
        texts(final(strings)@) == texts(old(strings)@) + texts(more@),
{
    let mut i: usize = 0;
    while i < more.len()
        invariant
            i <= more.len(),
            texts(strings@) == texts(old(strings)@) + texts(more@.take(i as int)),
        decreases more.len() - i,
    {
        let copy = more[i].clone();
        let ghost before = strings@;
        strings.push(copy);
        proof {
            assert(texts(strings@) =~= texts(before).push(more@[i as int]@));
            assert(texts(more@.take(i + 1)) =~= texts(more@.take(i as int)).push(
                more@[i as int]@,
            ));
        }
        i += 1;
    }
    assert(more@.take(more.len() as int) =~= more@);
}

impl Walk {
    /// Updates the config based on the value of another config.
    pub fn update(&mut self, source: &Self)
        ensures
            final(self)@ == old(self)@.updated(source@),
    {
        append_strings(&mut self.extend_exclude, &source.extend_exclude);
        if let Some(source) = source.ignore_hidden {
            self.ignore_hidden = Some(source);
        }
        if let Some(source) = source.ignore_files {
            self.ignore_files = Some(source);
            self.ignore_dot = None;
            self.ignore_vcs = None;
            self.ignore_global = None;
            self.ignore_parent = None;
        }
        if let Some(source) = source.ignore_dot {
            self.ignore_dot = Some(source);
        }
        if let Some(source) = source.ignore_vcs {
            self.ignore_vcs = Some(source);
            self.ignore_global = None;
        }
        if let Some(source) = source.ignore_global {
            self.ignore_global = Some(source);
        }
        if let Some(source) = source.ignore_parent {
            self.ignore_parent = Some(source);
        }
    }

    /// Whether to skip hidden files and directories
    pub fn ignore_hidden(&self) -> (skip: bool)
        ensures
            skip == self@.skips_hidden(),
    {
        match self.ignore_hidden {
            Some(skip) => skip,
            None => true,
        }
    }

    /// Whether to respect .ignore files
    pub fn ignore_dot(&self) -> (respect: bool)
        ensures
            respect == self@.respects_dot(),
    {
        match (self.ignore_dot, self.ignore_files) {
            (Some(respect), _) => respect,
            (None, Some(respect)) => respect,
            (None, None) => true,
        }
    }

    /// Whether to respect ignore files in vcs directories
    pub fn ignore_vcs(&self) -> (respect: bool)
        ensures
            respect == self@.respects_vcs(),
    {
        match (self.ignore_vcs, self.ignore_files) {
            (Some(respect), _) => respect,
            (None, Some(respect)) => respect,
            (None, None) => true,
        }
    }

    /// Whether to respect global ignore files
    pub fn ignore_global(&self) -> (respect: bool)
        ensures
            respect == self@.respects_global(),
    {
        match (self.ignore_global, self.ignore_vcs, self.ignore_files) {
            (Some(respect), _, _) => respect,
            (None, Some(respect), _) => respect,
            (None, None, Some(respect)) => respect,
            (None, None, None) => true,
        }
    }

    /// Whether to respect ignore files in parent directories
    pub fn ignore_parent(&self) -> (respect: bool)
        ensures
            respect == self@.respects_parent(),
    {
        match (self.ignore_parent, self.ignore_files) {
            (Some(respect), _) => respect,
            (None, Some(respect)) => respect,
            (None, None) => true,
        }
    }
}

/// A layer that gives no setting and no exclusion changes nothing.
pub proof fn lemma_update_with_nothing(walk: WalkView)
    ensures
        walk.updated(
            WalkView {
                extend_exclude: Seq::empty(),
                ignore_hidden: None,
                ignore_files: None,
                ignore_dot: None,
                ignore_vcs: None,
                ignore_global: None,
                ignore_parent: None,
            },
        ) == walk,
{
    assert(walk.extend_exclude + Seq::<Seq<char>>::empty() =~= walk.extend_exclude);
}

/// Every setting that a layer gives is the one in force after the update.
pub proof fn lemma_update_takes_what_is_given(walk: WalkView, source: WalkView)
    ensures
        source.ignore_hidden is Some ==> walk.updated(source).skips_hidden()
            == source.skips_hidden(),
        source.ignore_files is Some ==> walk.updated(source) == (WalkView {
            extend_exclude: walk.extend_exclude + source.extend_exclude,
            ignore_hidden: either(source.ignore_hidden, walk.ignore_hidden),
            ..source
        }),
        source.ignore_dot is Some ==> walk.updated(source).respects_dot() == source.respects_dot(),
        source.ignore_vcs is Some ==> walk.updated(source).respects_vcs() == source.respects_vcs(),
        source.ignore_global is Some ==> walk.updated(source).respects_global()
            == source.respects_global(),
        source.ignore_parent is Some ==> walk.updated(source).respects_parent()
            == source.respects_parent(),
{
}

/// Configuration for the linter's engine that can be applied globally or on a
/// type of file.
#[derive(Debug)]
pub struct EngineConfig {
    /// Whether to check files
    pub check_file: Option<bool>,
    /// Additional list of regexes to prevent strings from being checked
    pub extend_ignore_re: Vec<IgnorePattern>,
}

/// What an [`EngineConfig`] holds.
pub struct EngineConfigView {
    pub check_file: Option<bool>,
    pub extend_ignore_re: Seq<Seq<char>>,
}

impl View for EngineConfig {
    type V = EngineConfigView;

    open spec fn view(&self) -> EngineConfigView {
        EngineConfigView {
            check_file: self.check_file,
            extend_ignore_re: pattern_texts(self.extend_ignore_re@),
        }
    }
}

impl EngineConfigView {
    /// This configuration with `source` laid over it: whether to check files
    /// is taken from `source` where it says so; the regexes stay.
    pub open spec fn updated(self, source: EngineConfigView) -> EngineConfigView {
        EngineConfigView { check_file: either(source.check_file, self.check_file), ..self }
    }

    /// What a new file type starts from: files are checked, nothing is left
    /// alone.
    pub open spec fn initial() -> EngineConfigView {
        EngineConfigView { check_file: Some(true), extend_ignore_re: Seq::empty() }
    }
}

impl PartialEq for EngineConfig {
    fn eq(&self, other: &Self) -> (equal: bool) {
        let same_flag = match (self.check_file, other.check_file) {
            (Some(a), Some(b)) => a == b,
            (None, None) => true,
            _ => false,
        };
        if !same_flag || self.extend_ignore_re.len() != other.extend_ignore_re.len() {
            assert(self@ != other@) by {
                if self@.extend_ignore_re == other@.extend_ignore_re {
                    assert(self@.extend_ignore_re.len() == self.extend_ignore_re.len());
                    assert(other@.extend_ignore_re.len() == other.extend_ignore_re.len());
                }
            }
            return false;
        }
        let mut i: usize = 0;
        while i < self.extend_ignore_re.len()
            invariant
                i <= self.extend_ignore_re.len(),
                self.extend_ignore_re.len() == other.extend_ignore_re.len(),
                self.check_file == other.check_file,
                forall|j: int|
                    0 <= j < i ==> (#[trigger] self.extend_ignore_re[j])@
                        == other.extend_ignore_re[j]@,
            decreases self.extend_ignore_re.len() - i,
        {
            if !(self.extend_ignore_re[i] == other.extend_ignore_re[i]) {
                assert(self@.extend_ignore_re[i as int] != other@.extend_ignore_re[i as int]);
                return false;
            }
            i += 1;
        }
        assert(self@.extend_ignore_re =~= other@.extend_ignore_re);
        true
    }
}

impl vstd::std_specs::cmp::PartialEqSpecImpl for EngineConfig {
    open spec fn obeys_eq_spec() -> bool {
        true
    }

    open spec fn eq_spec(&self, other: &Self) -> bool {
        self@ == other@
    }
}

impl Eq for EngineConfig {

}

impl Default for EngineConfig {
    fn default() -> (config: Self)
        ensures
            config@ == EngineConfigView::initial(),
    {
        let config = EngineConfig { check_file: Some(true), extend_ignore_re: Vec::new() };
        assert(config@.extend_ignore_re =~= Seq::empty());
        config
    }
}

impl Clone for EngineConfig {
    fn clone(&self) -> (copy: Self)
        ensures
            copy@ == self@,
    {
        let mut extend_ignore_re: Vec<IgnorePattern> = Vec::new();
        let mut i: usize = 0;
        while i < self.extend_ignore_re.len()
            invariant
                i <= self.extend_ignore_re.len(),
                pattern_texts(extend_ignore_re@) == pattern_texts(
                    self.extend_ignore_re@.take(i as int),
                ),
            decreases self.extend_ignore_re.len() - i,
        {
            let copy = self.extend_ignore_re[i].clone();
            let ghost before = extend_ignore_re@;
            extend_ignore_re.push(copy);
            proof {
                let all = self.extend_ignore_re@;
                assert(pattern_texts(extend_ignore_re@) =~= pattern_texts(before).push(
                    all[i as int]@,
                ));
                assert(pattern_texts(all.take(i + 1)) =~= pattern_texts(all.take(i as int)).push(
                    all[i as int]@,
                ));
            }
            i += 1;
        }
        assert(self.extend_ignore_re@.take(self.extend_ignore_re.len() as int)
            =~= self.extend_ignore_re@);
        EngineConfig { check_file: self.check_file, extend_ignore_re }
    }
}

impl EngineConfig {
    /// Updates the config based on the value of another config.
    pub fn update(&mut self, source: &Self)
        ensures
            final(self)@ == old(self)@.updated(source@),
    {
        if let Some(source) = source.check_file {
            self.check_file = Some(source);
        }
    }

    /// Whether to check this file type
    pub fn check_file(&self) -> (check: bool)
        ensures
            check == self@.check_file.unwrap_or(true),
    {
        match self.check_file {
            Some(check) => check,
            None => true,
        }
    }
}

/// The settings of one type of file.
#[derive(Debug)]
pub struct TypePattern {
    /// The name of the type, which is that of a language.
    pub name: String,
    /// Its settings.
    pub engine: EngineConfig,
}

/// What a [`TypePattern`] holds.
pub struct TypePatternView {
    pub name: Seq<char>,
    pub engine: EngineConfigView,
}

impl View for TypePattern {
    type V = TypePatternView;

    open spec fn view(&self) -> TypePatternView {
        TypePatternView { name: self.name@, engine: self.engine@ }
    }
}

/// What each of `patterns` holds.
pub open spec fn pattern_views(patterns: Seq<TypePattern>) -> Seq<TypePatternView> {
    patterns.map_values(|p: TypePattern| p@)
}

/// The settings that `patterns` give for the type `name`: those of the first
/// entry with that name.
pub open spec fn lookup(patterns: Seq<TypePatternView>, name: Seq<char>) -> Option<EngineConfigView>
    decreases patterns.len(),
{
    if patterns.len() == 0 {
        None
    } else if patterns[0].name == name {
        Some(patterns[0].engine)
    } else {
        lookup(patterns.drop_first(), name)
    }
}

/// The place of the first entry of `patterns` for the type `name`, or the
/// number of entries where there is none.
pub open spec fn place_of(patterns: Seq<TypePatternView>, name: Seq<char>) -> int
    decreases patterns.len(),
{
    if patterns.len() == 0 {
        0
    } else if patterns[0].name == name {
        0
    } else {
        1 + place_of(patterns.drop_first(), name)
    }
}

/// `patterns` with the settings `source` laid over those of the type `name`.
/// A type that was not known starts from the settings of a new type.
pub open spec fn merged(patterns: Seq<TypePatternView>, name: Seq<char>, source: EngineConfigView) -> Seq<
    TypePatternView,
> {
    let at = place_of(patterns, name);
    if at < patterns.len() {
        patterns.update(
            at,
            TypePatternView { name, engine: patterns[at].engine.updated(source) },
        )
    } else {
        patterns.push(TypePatternView { name, engine: EngineConfigView::initial().updated(source) })
    }
}

/// `patterns` with the first `n` entries of `source` laid over them, one
/// after the other.
pub open spec fn merged_all(patterns: Seq<TypePatternView>, source: Seq<TypePatternView>, n: int) -> Seq<
    TypePatternView,
>
    decreases n,
{
    if n <= 0 {
        patterns
    } else {
        merged(merged_all(patterns, source, n - 1), source[n - 1].name, source[n - 1].engine)
    }
}

/// The place that `place_of` gives is that of the first entry with the name,
/// and `lookup` gives the settings at that place.
pub proof fn lemma_place_of(patterns: Seq<TypePatternView>, name: Seq<char>)
    ensures
        0 <= place_of(patterns, name) <= patterns.len(),
        forall|k: int| 0 <= k < place_of(patterns, name) ==> (#[trigger] patterns[k]).name != name,
        place_of(patterns, name) < patterns.len() ==> patterns[place_of(patterns, name)].name == name
            && lookup(patterns, name) == Some(patterns[place_of(patterns, name)].engine),
        place_of(patterns, name) == patterns.len() ==> lookup(patterns, name) is None,
    decreases patterns.len(),
{
    if patterns.len() > 0 && patterns[0].name != name {
        lemma_place_of(patterns.drop_first(), name);
        let rest = patterns.drop_first();
        assert forall|k: int| 0 <= k < place_of(patterns, name) implies (#[trigger] patterns[k]).name
            != name by {
            if k > 0 {
                assert(rest[k - 1].name != name);
            }
        }
    }
}

/// Laying settings over those of one type changes the settings of that type,
/// and of no other.
pub proof fn lemma_merged(
    patterns: Seq<TypePatternView>,
    name: Seq<char>,
    source: EngineConfigView,
    other: Seq<char>,
)
    ensures
        lookup(merged(patterns, name, source), name) == Some(
            match lookup(patterns, name) {
                Some(engine) => engine.updated(source),
                None => EngineConfigView::initial().updated(source),
            },
        ),
        other != name ==> lookup(merged(patterns, name, source), other) == lookup(patterns, other),
    decreases patterns.len(),
{
    lemma_place_of(patterns, name);
    if patterns.len() == 0 {
        let after = merged(patterns, name, source);
        assert(after.len() == 1 && after[0].name == name);
        assert(after.drop_first() =~= Seq::<TypePatternView>::empty());
        assert(lookup(after.drop_first(), other) is None);
    } else if patterns[0].name == name {
        let after = merged(patterns, name, source);
        assert(after.len() == patterns.len() && after[0].name == name);
        assert(after.drop_first() =~= patterns.drop_first());
    } else {
        let rest = patterns.drop_first();
        lemma_merged(rest, name, source, other);
        lemma_place_of(rest, name);
        let after = merged(patterns, name, source);
        assert(after.drop_first() =~= merged(rest, name, source));
        assert(after[0] == patterns[0]);
    }
}

/// File type specific settings.
///
/// It helps a user define settings that only apply to some file types.
#[derive(Debug)]
pub struct TypeEngineConfig {
    /// Maps a file type to a custom config
    pub patterns: Vec<TypePattern>,
}

impl View for TypeEngineConfig {
    type V = Seq<TypePatternView>;

    open spec fn view(&self) -> Seq<TypePatternView> {
        pattern_views(self.patterns@)
    }
}

impl Default for TypeEngineConfig {
    fn default() -> (config: Self)
        ensures
            config@ == Seq::<TypePatternView>::empty(),
    {
        let config = TypeEngineConfig { patterns: Vec::new() };
        assert(config@ =~= Seq::<TypePatternView>::empty());
        config
    }
}

impl Clone for TypeEngineConfig {
    fn clone(&self) -> (copy: Self)
        ensures
            copy@ == self@,
    {
        let mut patterns: Vec<TypePattern> = Vec::new();
        let mut i: usize = 0;
        while i < self.patterns.len()
            invariant
                i <= self.patterns.len(),
                patterns.len() == i,
                forall|k: int| 0 <= k < i ==> (#[trigger] patterns[k])@ == self.patterns[k]@,
            decreases self.patterns.len() - i,
        {
            let pattern = &self.patterns[i];
            patterns.push(TypePattern { name: pattern.name.clone(), engine: pattern.engine.clone() });
            i += 1;
        }
        let copy = TypeEngineConfig { patterns };
        assert(copy@ =~= self@);
        copy
    }
}

impl TypeEngineConfig {
    /// The place of the first entry for the type `name`, if there is one.
    fn position(&self, name: &str) -> (at: usize)
        ensures
            at == place_of(self@, name@),
            at <= self.patterns.len(),
    {
        let mut i: usize = 0;
        proof {
            lemma_place_of(self@, name@);
        }
        while i < self.patterns.len()
            invariant
                i <= self.patterns.len(),
                i <= place_of(self@, name@),
                place_of(self@, name@) <= self@.len(),
                self@.len() == self.patterns.len(),
                place_of(self@, name@) < self@.len() ==> self@[place_of(self@, name@)].name == name@,
                forall|k: int| 0 <= k < i ==> (#[trigger] self@[k]).name != name@,
            decreases self.patterns.len() - i,
        {
            if same_text(self.patterns[i].name.as_str(), name) {
                proof {
                    lemma_place_of(self@, name@);
                    assert(self@[i as int].name == name@);
                }
                return i;
            }
            assert(self@[i as int].name != name@);
            i += 1;
        }
        i
    }

    /// The settings of the type `name`, if it has some.
    pub fn get(&self, name: &str) -> (engine: Option<&EngineConfig>)
        ensures
            engine is Some <==> lookup(self@, name@) is Some,
            engine matches Some(e) ==> Some(e@) == lookup(self@, name@),
    {
        let at = self.position(name);
        proof {
            lemma_place_of(self@, name@);
        }
        if at < self.patterns.len() {
            Some(&self.patterns[at].engine)
        } else {
            None
        }
    }

    /// Lays the settings `source` over those of the type `name`.
    pub fn merge(&mut self, name: &str, source: &EngineConfig)
        ensures
            final(self)@ == merged(old(self)@, name@, source@),
    {
        let at = self.position(name);
        if at < self.patterns.len() {
            let mut engine = self.patterns[at].engine.clone();
            engine.update(source);
            self.patterns.set(at, TypePattern { name: name.to_owned(), engine });
            assert(self@ =~= merged(old(self)@, name@, source@));
        } else {
            let mut engine = EngineConfig::default();
            engine.update(source);
            self.patterns.push(TypePattern { name: name.to_owned(), engine });
            assert(self@ =~= merged(old(self)@, name@, source@));
        }
    }

    /// Updates the config based on the value of another config: the
    /// settings of each type of `source` are laid over those of the same type.
    pub fn update(&mut self, source: &Self)
        ensures
            final(self)@ == merged_all(old(self)@, source@, source@.len() as int),
    {
        let mut i: usize = 0;
        while i < source.patterns.len()
            invariant
                i <= source.patterns.len(),
                self@ == merged_all(old(self)@, source@, i as int),
            decreases source.patterns.len() - i,
        {
            let pattern = &source.patterns[i];
            assert(source@[i as int] == pattern@);
            self.merge(pattern.name.as_str(), &pattern.engine);
            i += 1;
        }
    }

    /// Whether each type of `self` has the same settings in `other`.
    fn agrees_with(&self, other: &Self) -> (agrees: bool)
        ensures
            agrees == forall|k: int|
                0 <= k < self@.len() ==> lookup(self@, (#[trigger] self@[k]).name) == lookup(
                    other@,
                    self@[k].name,
                ),
    {
        let mut i: usize = 0;
        while i < self.patterns.len()
            invariant
                i <= self.patterns.len(),
                self@.len() == self.patterns.len(),
                forall|k: int|
                    0 <= k < i ==> lookup(self@, (#[trigger] self@[k]).name) == lookup(
                        other@,
                        self@[k].name,
                    ),
            decreases self.patterns.len() - i,
        {
            let name = self.patterns[i].name.as_str();
            assert(self@[i as int].name == name@);
            let same = match (self.get(name), other.get(name)) {
                (Some(a), Some(b)) => a == b,
                (None, None) => true,
                _ => false,
            };
            if !same {
                return false;
            }
            i += 1;
        }
        true
    }
}

/// A type has settings if and only if it has an entry.
pub proof fn lemma_lookup_entry(patterns: Seq<TypePatternView>, name: Seq<char>)
    ensures
        lookup(patterns, name) is Some <==> exists|k: int|
            0 <= k < patterns.len() && (#[trigger] patterns[k]).name == name,
{
    lemma_place_of(patterns, name);
    if lookup(patterns, name) is Some {
        assert(patterns[place_of(patterns, name)].name == name);
    }
}

impl PartialEq for TypeEngineConfig {
    fn eq(&self, other: &Self) -> (equal: bool) {
        let equal = self.agrees_with(other) && other.agrees_with(self);
        proof {
            if equal {
                assert forall|name: Seq<char>| lookup(self@, name) == lookup(other@, name) by {
                    lemma_lookup_entry(self@, name);
                    lemma_lookup_entry(other@, name);
                    if lookup(self@, name) is Some {
                        let k = choose|k: int|
                            0 <= k < self@.len() && (#[trigger] self@[k]).name == name;
                        assert(lookup(self@, self@[k].name) == lookup(other@, self@[k].name));
                    } else if lookup(other@, name) is Some {
                        let k = choose|k: int|
                            0 <= k < other@.len() && (#[trigger] other@[k]).name == name;
                        assert(lookup(other@, other@[k].name) == lookup(self@, other@[k].name));
                    }
                }
            }
        }
        equal
    }
}

impl vstd::std_specs::cmp::PartialEqSpecImpl for TypeEngineConfig {
    open spec fn obeys_eq_spec() -> bool {
        true
    }

    /// Two configs are the same when every type has the same settings in
    /// both, in whatever order the types were given.
    open spec fn eq_spec(&self, other: &Self) -> bool {
        forall|name: Seq<char>| lookup(self@, name) == lookup(other@, name)
    }
}

impl Eq for TypeEngineConfig {

}

/// Defines the configuration of the linter.
///
/// It is compatible with a subset of the configuration of
/// [`typos`](https://crates.io/crates/typos-cli).
#[derive(Debug, PartialEq, Eq)]
pub struct Config {
    pub files: Walk,
    pub default: EngineConfig,
    pub type_: TypeEngineConfig,
}

impl Default for Config {
    fn default() -> (config: Self)
        ensures
            config.files@ == Walk::default_view(),
            config.default@ == EngineConfigView::initial(),
            config.type_@ == Seq::<TypePatternView>::empty(),
    {
        Config {
            files: Walk::default(),
            default: EngineConfig::default(),
            type_: TypeEngineConfig::default(),
        }
    }
}

impl Clone for Config {
    fn clone(&self) -> (copy: Self)
        ensures
            copy.files@ == self.files@,
            copy.default@ == self.default@,
            copy.type_@ == self.type_@,
    {
        Config { files: self.files.clone(), default: self.default.clone(), type_: self.type_.clone() }
    }
}

impl Config {
    /// Updates the config based on the value of another config
    pub fn update(&mut self, source: &Self)
        ensures
            final(self).files@ == old(self).files@.updated(source.files@),
            final(self).default@ == old(self).default@.updated(source.default@),
            final(self).type_@ == merged_all(old(self).type_@, source.type_@, source.type_@.len() as int),
    {
        self.files.update(&source.files);
        self.default.update(&source.default);
        self.type_.update(&source.type_);
    }

    /// The settings for the file called `filename`: the default ones, with
    /// those of the type of the file laid over them where its language is
    /// known and the type has settings.
    pub fn config_from_path(&self, mapping: &Mapping, filename: &str) -> (config: EngineConfig)
        requires
            mapping.wf(),
        ensures
            config@ == match mapping.resolve(filename@) {
                Some(language) => match lookup(self.type_@, language@.name) {
                    Some(engine) => self.default@.updated(engine),
                    None => self.default@,
                },
                None => self.default@,
            },
    {
        let mut config = self.default.clone();
        match Language::from_filename(mapping, filename) {
            Some(language) => match self.type_.get(language.name()) {
                Some(engine) => {
                    config.update(engine);
                },
                None => {},
            },
            None => {},
        }
        config
    }
}

/// Where a configuration can stand in a file.
#[derive(Clone, Copy, PartialEq, Eq, Debug, Structural)]
pub enum ConfigFile {
    /// The whole file is the configuration.
    Plain,
    /// The manifest of a Rust package: the configuration stands in the
    /// metadata of the workspace or of the package.
    CargoToml,
    /// The description of a Python project: the configuration stands among
    /// the settings of its tools.
    PyprojectToml,
}

/// Where the configuration stands in a file called `name`.
pub fn config_file(name: &str) -> (file: ConfigFile)
    ensures
        file == if name@ == "Cargo.toml"@ {
            ConfigFile::CargoToml
        } else if name@ == "pyproject.toml"@ {
            ConfigFile::PyprojectToml
        } else {
            ConfigFile::Plain
        },
{
    if same_text(name, "Cargo.toml") {
        ConfigFile::CargoToml
    } else if same_text(name, "pyproject.toml") {
        ConfigFile::PyprojectToml
    } else {
        ConfigFile::Plain
    }
}

/// List of file names that can contain the configuration
pub fn supported_file_names() -> (names: Vec<&'static str>)
    ensures
        crate::text::words_of(names@) == seq![
            "typos.toml"@,
            "_typos.toml"@,
            ".typos.toml"@,
            "Cargo.toml"@,
            "pyproject.toml"@,
        ],
{
    let names = vec!["typos.toml", "_typos.toml", ".typos.toml", "Cargo.toml", "pyproject.toml"];
    assert(crate::text::words_of(names@) =~= seq![
        "typos.toml"@,
        "_typos.toml"@,
        ".typos.toml"@,
        "Cargo.toml"@,
        "pyproject.toml"@,
    ]);
    names
}

/// The configuration that a manifest gives: that of the workspace, or else
/// that of the package.
pub fn manifest_config(workspace: Option<Config>, package: Option<Config>) -> (config: Option<Config>)
    ensures
        config == if workspace is Some {
            workspace
        } else {
            package
        },
{
    match workspace {
        Some(config) => Some(config),
        None => package,
    }
}

/// What a pair of switches of the command line says, of which `yes` turns a
/// setting on and `no` turns it off: nothing where neither or both are given.
pub fn resolve_bool_arg(yes: bool, no: bool) -> (setting: Option<bool>)
    ensures
        setting == if yes && !no {
            Some(true)
        } else if !yes && no {
            Some(false)
        } else {
            None
        },
{
    match (yes, no) {
        (true, false) => Some(true),
        (false, true) => Some(false),
        (_, _) => None,
    }
}

} // verus!
