//! What the program around the compiler asks of a compilation.
use crate::compiler::any_map;
use crate::compiler::any_map::{AnyMap, Erased};
use crate::compiler::regex_cache;
use crate::compiler::regex_cache::RegexCache;
use crate::path;
use crate::path::{OwnedTargetPath, PathPrefix, Step, TargetPath};
use crate::value_regex;
use crate::value_regex::{RegexError, ValueRegex};
use vstd::prelude::*;

verus! {

/// A path that is read-only, with everything below it if `recursive` is set.
#[derive(Debug)]
struct ReadOnlyPath {
    path: OwnedTargetPath,
    recursive: bool,
}

/// What a read-only path says.
#[verifier::ext_equal]
pub struct ReadOnly {
    pub path: TargetPath,
    pub recursive: bool,
}

impl View for ReadOnlyPath {
    type V = ReadOnly;

    closed spec fn view(&self) -> ReadOnly {
        ReadOnly { path: self.path@, recursive: self.recursive }
    }
}

impl ReadOnly {
    /// Whether `path` must not be changed on account of this read-only path: any path that leads
    /// to it, the path itself, and, if `recursive` is set, any path below it.
    pub open spec fn protects(self, path: TargetPath) -> bool {
        ||| self.path.starts_with(path)
        ||| if self.recursive {
            path.starts_with(self.path)
        } else {
            path == self.path
        }
    }
}

/// Whether `path` must not be changed on account of one of the read-only paths.
pub open spec fn is_read_only(paths: Set<ReadOnly>, path: TargetPath) -> bool {
    exists|read_only: ReadOnly| #[trigger] paths.contains(read_only) && read_only.protects(path)
}

/// A set of read-only paths. None of them occurs twice.
struct ReadOnlyPaths {
    paths: Vec<ReadOnlyPath>,
}

impl View for ReadOnlyPaths {
    type V = Set<ReadOnly>;

    closed spec fn view(&self) -> Set<ReadOnly> {
        Set::new(|entry: ReadOnly| exists|i: int| self.is_place(entry, i))
    }
}

impl ReadOnlyPaths {
    spec fn is_place(&self, entry: ReadOnly, i: int) -> bool {
        0 <= i < self.paths@.len() && self.paths@[i]@ == entry
    }

    #[verifier::type_invariant]
    spec fn well_formed(&self) -> bool {
        forall|i: int, j: int|
            0 <= i < j < self.paths@.len() ==> #[trigger] self.paths@[i]@ != #[trigger] self.paths@[j]@
    }

    fn new() -> (r: Self)
        ensures
            r@ == Set::<ReadOnly>::empty(),
    {
        let r = ReadOnlyPaths { paths: Vec::new() };
        assert(r@ =~= Set::<ReadOnly>::empty());
        r
    }

    fn contains(&self, path: &OwnedTargetPath, recursive: bool) -> (r: bool)
        ensures
            r == self@.contains(ReadOnly { path: path@, recursive }),
    {
        let ghost entry = ReadOnly { path: path@, recursive };
        let mut i: usize = 0;
        while i < self.paths.len()
            invariant
                i <= self.paths@.len(),
                entry == (ReadOnly { path: path@, recursive }),
                forall|j: int| 0 <= j < i ==> #[trigger] self.paths@[j]@ != entry,
            decreases self.paths@.len() - i,
        {
            let read_only = &self.paths[i];
            if read_only.recursive == recursive && read_only.path == *path {
                assert(self.is_place(entry, i as int));
                return true;
            }
            i += 1;
        }
        false
    }

    fn insert(&mut self, path: OwnedTargetPath, recursive: bool)
        ensures
            final(self)@ == old(self)@.insert(ReadOnly { path: path@, recursive }),
    {
        let ghost entry = ReadOnly { path: path@, recursive };
        if self.contains(&path, recursive) {
            assert(self@ =~= self@.insert(entry));
            return;
        }
        let mut taken = ReadOnlyPaths::new();
        std::mem::swap(self, &mut taken);
        proof {
            use_type_invariant(&taken);
        }
        let ghost before = taken;
        let ReadOnlyPaths { mut paths } = taken;
        paths.push(ReadOnlyPath { path, recursive });
        assert forall|i: int, j: int| 0 <= i < j < paths@.len() implies #[trigger] paths@[i]@
            != #[trigger] paths@[j]@ by {
            if j == paths@.len() - 1 {
                assert(before.is_place(paths@[i]@, i));
            }
        }
        *self = ReadOnlyPaths { paths };
        proof {
            assert forall|other: ReadOnly| self@.contains(other) <==> before@.insert(
                entry,
            ).contains(other) by {
                if before@.contains(other) {
                    let i = choose|i: int| before.is_place(other, i);
                    assert(self.is_place(other, i));
                }
                if other == entry {
                    assert(self.is_place(entry, paths@.len() - 1));
                }
                if self@.contains(other) && other != entry {
                    let i = choose|i: int| self.is_place(other, i);
                    assert(before.is_place(other, i));
                }
            }
            assert(self@ =~= before@.insert(entry));
        }
    }
}

/// What the program around the compiler asks of a compilation.
pub struct CompileConfig {
    /// Custom context injected by the external environment
    custom: AnyMap,
    read_only_paths: ReadOnlyPaths,
    check_unused_expressions: bool,
    /// Shared regex-literal cache, when the caller opted in. `None` compiles every literal on its
    /// own.
    regex_cache: Option<RegexCache>,
}

/// What a [`CompileConfig`] says.
#[verifier::ext_equal]
pub struct CompileConfigModel {
    /// The values of types that only the program around the compiler knows, by the number of their
    /// type.
    pub custom: Map<int, Seq<Erased>>,
    /// The paths that must not be changed.
    pub read_only_paths: Set<ReadOnly>,
    /// Whether to look for expressions whose results are not used.
    pub check_unused_expressions: bool,
    /// The cache that compilations share, if there is one.
    pub regex_cache: Option<RegexCache>,
}

impl View for CompileConfig {
    type V = CompileConfigModel;

    closed spec fn view(&self) -> CompileConfigModel {
        CompileConfigModel {
            custom: self.custom@,
            read_only_paths: self.read_only_paths@,
            check_unused_expressions: self.check_unused_expressions,
            regex_cache: self.regex_cache,
        }
    }
}

impl Default for CompileConfig {
    fn default() -> (r: Self)
        ensures
            r@.custom == Map::<int, Seq<Erased>>::empty(),
            r@.read_only_paths == Set::<ReadOnly>::empty(),
            r@.check_unused_expressions,
            r@.regex_cache is None,
    {
        CompileConfig {
            custom: AnyMap::new(),
            read_only_paths: ReadOnlyPaths::new(),
            check_unused_expressions: true,
            regex_cache: None,
        }
    }
}

/// The path to the whole event or metadata.
pub open spec fn root(prefix: PathPrefix) -> TargetPath {
    TargetPath { prefix, path: Seq::<Step>::empty() }
}

/// The read-only paths when everything is read-only.
pub open spec fn with_everything(paths: Set<ReadOnly>) -> Set<ReadOnly> {
    paths.insert(ReadOnly { path: root(PathPrefix::Event), recursive: true }).insert(
        ReadOnly { path: root(PathPrefix::Metadata), recursive: true },
    )
}

impl CompileConfig {
    /// Get external context data from the external environment.
    pub fn get_custom<T: 'static>(&self) -> (r: Option<&T>)
        ensures
            any_map::finds(
                self@.custom,
                match r {
                    Some(data) => Some(*data),
                    None => None,
                },
            ),
    {
        self.custom.get()
    }

    /// Get external context data from the external environment.
    pub fn get_custom_mut<T: 'static>(&mut self) -> (r: Option<&mut T>)
        ensures
            match r {
                Some(data) => {
                    &&& any_map::changes(
                        old(self)@.custom,
                        final(self)@.custom,
                        *data,
                        *final(data),
                    )
                    &&& final(self)@ == (CompileConfigModel {
                        custom: final(self)@.custom,
                        ..old(self)@
                    })
                },
                None => {
                    &&& any_map::may_have_none::<T>(old(self)@.custom)
                    &&& final(self)@ == old(self)@
                },
            },
    {
        self.custom.get_mut()
    }

    /// Sets the external context data for VRL functions to use.
    pub fn set_custom<T: 'static>(&mut self, data: T)
        ensures
            any_map::sets(old(self)@.custom, final(self)@.custom, data),
            final(self)@ == (CompileConfigModel { custom: final(self)@.custom, ..old(self)@ }),
    {
        self.custom.insert(data);
    }

    /// The external context data, to be changed.
    pub fn custom_mut(&mut self) -> (r: &mut AnyMap)
        ensures
            r@ == old(self)@.custom,
            final(self)@ == (CompileConfigModel { custom: final(r)@, ..old(self)@ }),
    {
        &mut self.custom
    }

    /// Marks everything as read only. Any mutations on read-only values will result in a compile
    /// time error.
    pub fn set_read_only(&mut self)
        ensures
            final(self)@ == (CompileConfigModel {
                read_only_paths: with_everything(old(self)@.read_only_paths),
                ..old(self)@
            }),
    {
        self.set_read_only_path(OwnedTargetPath::event_root(), true);
        self.set_read_only_path(OwnedTargetPath::metadata_root(), true);
    }

    /// Whether a path must not be changed.
    pub fn is_read_only_path(&self, path: &OwnedTargetPath) -> (r: bool)
        ensures
            r == is_read_only(self@.read_only_paths, path@),
    {
        let ghost paths = self@.read_only_paths;
        let mut i: usize = 0;
        while i < self.read_only_paths.paths.len()
            invariant
                i <= self.read_only_paths.paths@.len(),
                paths == self@.read_only_paths,
                forall|j: int|
                    0 <= j < i ==> !(#[trigger] self.read_only_paths.paths@[j])@.protects(path@),
            decreases self.read_only_paths.paths@.len() - i,
        {
            let read_only_path = &self.read_only_paths.paths[i];
            assert(self.read_only_paths.is_place(read_only_path@, i as int));
            assert(paths.contains(read_only_path@));
            // any paths that are a parent of read-only paths also can't be modified
            if read_only_path.path.can_start_with(path) {
                return true;
            }
            if read_only_path.recursive {
                if path.can_start_with(&read_only_path.path) {
                    return true;
                }
            } else if *path == read_only_path.path {
                return true;
            }
            i += 1;
        }
        proof {
            if is_read_only(paths, path@) {
                let read_only = choose|read_only: ReadOnly| #[trigger]
                    paths.contains(read_only) && read_only.protects(path@);
                let j = choose|j: int| self.read_only_paths.is_place(read_only, j);
                assert(self.read_only_paths.paths@[j]@ == read_only);
            }
        }
        false
    }

    /// Adds a path that is considered read only. Assignments to any paths that match will fail at
    /// compile time.
    pub fn set_read_only_path(&mut self, path: OwnedTargetPath, recursive: bool)
        ensures
            final(self)@ == (CompileConfigModel {
                read_only_paths: old(self)@.read_only_paths.insert(
                    ReadOnly { path: path@, recursive },
                ),
                ..old(self)@
            }),
    {
        self.read_only_paths.insert(path, recursive);
    }

    /// Whether to look for expressions whose results are not used.
    pub fn unused_expression_check_enabled(&self) -> (r: bool)
        ensures
            r == self@.check_unused_expressions,
    {
        self.check_unused_expressions
    }

    /// Does not look for expressions whose results are not used.
    pub fn disable_unused_expression_check(&mut self)
        ensures
            final(self)@ == (CompileConfigModel { check_unused_expressions: false, ..old(self)@ }),
    {
        self.check_unused_expressions = false;
    }

    /// Share one [`RegexCache`] with every other compilation handed the same handle, so that a
    /// pattern appearing in several programs is compiled once.
    ///
    /// The handle must not outlive the compile session. See [`RegexCache`].
    pub fn set_regex_cache(&mut self, cache: RegexCache)
        ensures
            final(self)@ == (CompileConfigModel { regex_cache: Some(cache), ..old(self)@ }),
    {
        self.regex_cache = Some(cache);
    }

    /// The shared regex-literal cache, if one was set.
    pub fn regex_cache(&self) -> (r: Option<&RegexCache>)
        ensures
            match r {
                Some(cache) => self@.regex_cache == Some(*cache),
                None => self@.regex_cache is None,
            },
    {
        match &self.regex_cache {
            Some(cache) => Some(cache),
            None => None,
        }
    }

    /// Compiles a regex literal, reusing the cached automata when this config shares a
    /// [`RegexCache`] with a compilation that already saw the same pattern.
    pub fn compile_regex_literal(&self, pattern: &str) -> (r: Result<ValueRegex, RegexError>)
        ensures
            regex_cache::literal_compiles_to(pattern@, r),
    {
        match &self.regex_cache {
            Some(cache) => cache.compile(pattern),
            None => regex_cache::literal(value_regex::new_regex(pattern)),
        }
    }
}

/// External context data that was set, or changed in place, is found, as far as its type has its
/// number for itself and its values can be told apart. What is found of types with other numbers
/// stays as it was.
pub proof fn custom_data_is_kept_by_type<T: 'static, U: 'static>(
    before: CompileConfigModel,
    after: CompileConfigModel,
    data: T,
    found: Option<T>,
    other: Option<U>,
)
    requires
        any_map::sets(before.custom, after.custom, data),
        any_map::finds(after.custom, found),
    ensures
        any_map::is_one_type(any_map::type_number::<T>()) ==> found is Some,
        any_map::is_one_type(any_map::type_number::<T>()) && any_map::has_code::<T>() ==> found
            == Some(data),
        any_map::type_number::<T>() != any_map::type_number::<U>() ==> any_map::finds(
            after.custom,
            other,
        ) == any_map::finds(before.custom, other),
{
    any_map::set_value_is_held(before.custom, after.custom, data);
    if any_map::has_code::<T>() {
        any_map::set_value_is_found(before.custom, after.custom, data, found);
    }
    if any_map::type_number::<T>() != any_map::type_number::<U>() {
        any_map::values_of_other_types_are_left_alone(before.custom, after.custom, data, other);
    }
}

/// When everything was set read-only, every path is.
pub proof fn everything_is_read_only(paths: Set<ReadOnly>, path: TargetPath)
    ensures
        is_read_only(with_everything(paths), path),
{
    let entry = ReadOnly { path: root(path.prefix), recursive: true };
    assert(path.path.take(0) =~= Seq::<Step>::empty());
    assert(with_everything(paths).contains(entry));
    assert(entry.protects(path));
}

/// A path that was set read-only is, and so is every path that leads to it.
pub proof fn a_read_only_path_and_its_parents_are_read_only(
    paths: Set<ReadOnly>,
    read_only: ReadOnly,
    path: TargetPath,
)
    requires
        read_only.path.starts_with(path),
    ensures
        is_read_only(paths.insert(read_only), path),
        is_read_only(paths.insert(read_only), read_only.path),
{
    let after = paths.insert(read_only);
    assert(after.contains(read_only));
    assert(read_only.path.path.take(read_only.path.path.len() as int) =~= read_only.path.path);
    assert(read_only.protects(path));
    assert(read_only.protects(read_only.path));
}

/// A path that leads on to one that was set read-only is read-only, and so is every path that leads
/// on from one that was set read-only with everything below it. It does not matter whether the
/// steps between the two are fields or indices.
pub proof fn a_path_is_read_only_by_its_steps(
    paths: Set<ReadOnly>,
    prefix: PathPrefix,
    steps: Seq<Step>,
    more: Seq<Step>,
    recursive: bool,
)
    ensures
        is_read_only(
            paths.insert(
                ReadOnly { path: TargetPath { prefix, path: steps + more }, recursive },
            ),
            TargetPath { prefix, path: steps },
        ),
        is_read_only(
            paths.insert(
                ReadOnly { path: TargetPath { prefix, path: steps }, recursive: true },
            ),
            TargetPath { prefix, path: steps + more },
        ),
{
    let short = TargetPath { prefix, path: steps };
    let long = TargetPath { prefix, path: steps + more };
    path::a_target_path_begins_with_its_first_steps(short, short, prefix, more);
    assert(long.starts_with(short));
    let parent = ReadOnly { path: long, recursive };
    let root = ReadOnly { path: short, recursive: true };
    assert(paths.insert(parent).contains(parent) && parent.protects(short));
    assert(paths.insert(root).contains(root) && root.protects(long));
}

/// A path is read-only only on account of one that was set read-only in the same part: one that it
/// leads on to, or one that leads on to it and was set with everything below it.
pub proof fn a_path_is_read_only_only_by_its_steps(
    paths: Set<ReadOnly>,
    path: TargetPath,
)
    requires
        is_read_only(paths, path),
    ensures
        exists|entry: ReadOnly, more: Seq<Step>|
            {
                &&& #[trigger] paths.contains(entry)
                &&& entry.path.prefix == path.prefix
                &&& {
                    ||| entry.path.path == #[trigger] (path.path + more)
                    ||| entry.recursive && path.path == entry.path.path + more
                }
            },
{
    let entry = choose|entry: ReadOnly| #[trigger] paths.contains(entry) && entry.protects(path);
    path::a_target_path_begins_with_its_first_steps(entry.path, path, path.prefix, Seq::empty());
    path::a_target_path_begins_with_its_first_steps(path, entry.path, path.prefix, Seq::empty());
    let more = if entry.path.starts_with(path) {
        entry.path.path.skip(path.path.len() as int)
    } else {
        path.path.skip(entry.path.path.len() as int)
    };
    if !entry.recursive && entry.path == path {
        assert(entry.path.path =~= path.path + Seq::<Step>::empty());
        assert(paths.contains(entry) && entry.path.path == path.path + Seq::<Step>::empty());
    } else {
        let whole = path.path + more;
        assert(paths.contains(entry) && whole == path.path + more);
    }
}

/// Below a path that was set read-only with everything below it, every path is read-only.
pub proof fn what_lies_below_a_recursive_path_is_read_only(
    paths: Set<ReadOnly>,
    path: TargetPath,
    below: TargetPath,
)
    requires
        below.starts_with(path),
    ensures
        is_read_only(paths.insert(ReadOnly { path, recursive: true }), below),
{
    let entry = ReadOnly { path, recursive: true };
    assert(paths.insert(entry).contains(entry));
    assert(entry.protects(below));
}

/// Below a path that alone was set read-only, a path is read-only only on account of another one.
pub proof fn what_lies_below_a_single_path_is_left_alone(
    paths: Set<ReadOnly>,
    path: TargetPath,
    below: TargetPath,
)
    requires
        below.starts_with(path),
        below != path,
    ensures
        is_read_only(paths.insert(ReadOnly { path, recursive: false }), below) == is_read_only(
            paths,
            below,
        ),
{
    let entry = ReadOnly { path, recursive: false };
    let after = paths.insert(entry);
    if path.starts_with(below) {
        assert(path.path.len() == below.path.len());
        assert(below.path.take(path.path.len() as int) =~= below.path);
        assert(below =~= path);
    }
    assert(!entry.protects(below));
    if is_read_only(after, below) {
        let read_only = choose|read_only: ReadOnly| #[trigger]
            after.contains(read_only) && read_only.protects(below);
        assert(paths.contains(read_only));
    }
    if is_read_only(paths, below) {
        let read_only = choose|read_only: ReadOnly| #[trigger]
            paths.contains(read_only) && read_only.protects(below);
        assert(after.contains(read_only));
    }
}

/// No path stops being read-only when another one is set read-only.
pub proof fn a_read_only_path_stays_read_only(
    paths: Set<ReadOnly>,
    read_only: ReadOnly,
    path: TargetPath,
)
    requires
        is_read_only(paths, path),
    ensures
        is_read_only(paths.insert(read_only), path),
{
    let entry = choose|entry: ReadOnly| #[trigger] paths.contains(entry) && entry.protects(path);
    assert(paths.insert(read_only).contains(entry));
}

/// A path that is on no way to or from a read-only path may be changed.
pub proof fn an_unrelated_path_is_not_read_only(paths: Set<ReadOnly>, path: TargetPath)
    requires
        forall|read_only: ReadOnly| #[trigger]
            paths.contains(read_only) ==> !read_only.path.starts_with(path) && !path.starts_with(
                read_only.path,
            ),
    ensures
        !is_read_only(paths, path),
{
    if is_read_only(paths, path) {
        let read_only = choose|read_only: ReadOnly| #[trigger]
            paths.contains(read_only) && read_only.protects(path);
        assert(path.path.take(path.path.len() as int) =~= path.path);
    }
}

} // verus!
