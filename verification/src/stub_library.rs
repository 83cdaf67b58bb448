//! The symbols a text-based dylib stub defines: its own `arm64e-macos` exports and those of every
//! library it reexports, followed through other documents of the same file and, when a child
//! lives in a separate file, through documents the caller loads.
use vstd::prelude::*;
use crate::load_commands::{spec_tbd_versions, DylibVersions, VersionError};
use crate::tapi::{
    arm64_lib_arch, names_arm64, strings_view, views_of, DefinitionView, Exports, ExportsView,
    TextBasedDefinition,
};

verus! {

/// What a text-based stub contributes to a link: the root library's identity and versions, and
/// the symbols of the root and every library it reexports.
#[derive(Debug)]
pub struct DefinedStubLibrary {
    pub install_name: Vec<u8>,
    pub versions: DylibVersions,
    pub symbols: Vec<Vec<u8>>,
    pub weak_symbols: Vec<Vec<u8>>,
    pub objc_classes: Vec<Vec<u8>>,
}

/// Why a stub could not be resolved.
#[derive(Debug, Clone, Copy, PartialEq, Eq)]
pub enum StubError {
    /// The file holds no document.
    NoRootLibrary,
    /// The root library has no `arm64e-macos` target.
    RootNotArm64,
    /// A version field of the root library is malformed.
    Version(VersionError),
    /// Two documents share an install name.
    DuplicateInstallName,
    /// A visited library is not TBD version 4.
    UnsupportedVersion,
    /// A separately loaded file does not define the library that was asked for.
    ExternalNotDefined,
    /// A document is not in the regular spelling this reader handles.
    NotStandardSpelling,
    /// The TBD file of a reexported library could not be loaded.
    ExternalLoadFailed,
}

/// One step of the walk.
#[derive(Debug, PartialEq, Eq)]
pub enum StubStep {
    /// The walk made progress; step again.
    Continue,
    /// Every reachable library was visited.
    Done,
    /// The reexported library with this install name is not in the known documents; load the
    /// TBD file that defines it and hand its documents over.
    NeedExternal(Vec<u8>),
}

/// Whether an entry applies to `arm64e-macos`.
pub open spec fn applies_to_arm64(e: ExportsView) -> bool {
    e.targets.contains(arm64_lib_arch())
}

/// The `arm64e-macos` symbols of the first `k` entries.
pub open spec fn entries_symbols(es: Seq<ExportsView>, k: int) -> Seq<Seq<u8>>
    decreases k,
{
    if k <= 0 || k > es.len() {
        Seq::empty()
    } else {
        entries_symbols(es, k - 1) + if applies_to_arm64(es[k - 1]) {
            es[k - 1].symbols
        } else {
            Seq::empty()
        }
    }
}

/// The `arm64e-macos` weak symbols of the first `k` entries.
pub open spec fn entries_weak_symbols(es: Seq<ExportsView>, k: int) -> Seq<Seq<u8>>
    decreases k,
{
    if k <= 0 || k > es.len() {
        Seq::empty()
    } else {
        entries_weak_symbols(es, k - 1) + if applies_to_arm64(es[k - 1]) {
            es[k - 1].weak_symbols
        } else {
            Seq::empty()
        }
    }
}

/// The `arm64e-macos` Objective-C classes of the first `k` entries.
pub open spec fn entries_objc_classes(es: Seq<ExportsView>, k: int) -> Seq<Seq<u8>>
    decreases k,
{
    if k <= 0 || k > es.len() {
        Seq::empty()
    } else {
        entries_objc_classes(es, k - 1) + if applies_to_arm64(es[k - 1]) {
            es[k - 1].objc_classes
        } else {
            Seq::empty()
        }
    }
}

/// A document's export and reexport entries, in that order.
pub open spec fn all_entries(d: DefinitionView) -> Seq<ExportsView> {
    d.exports + d.reexports
}

/// The install names a document reexports for `arm64e-macos`, from its first `k` entries.
pub open spec fn reexport_names(rs: Seq<(Seq<Seq<u8>>, Seq<Seq<u8>>)>, k: int) -> Seq<Seq<u8>>
    decreases k,
{
    if k <= 0 || k > rs.len() {
        Seq::empty()
    } else {
        reexport_names(rs, k - 1) + if rs[k - 1].0.contains(arm64_lib_arch()) {
            rs[k - 1].1
        } else {
            Seq::empty()
        }
    }
}

/// The symbols contributed by the visited documents, in visiting order.
pub open spec fn visited_symbols(defs: Seq<DefinitionView>, order: Seq<int>, n: int) -> Seq<Seq<u8>>
    decreases n,
{
    if n <= 0 || n > order.len() {
        Seq::empty()
    } else {
        let d = defs[order[n - 1]];
        visited_symbols(defs, order, n - 1) + entries_symbols(all_entries(d), all_entries(d).len() as int)
    }
}

/// The weak symbols contributed by the visited documents, in visiting order.
pub open spec fn visited_weak_symbols(defs: Seq<DefinitionView>, order: Seq<int>, n: int) -> Seq<Seq<u8>>
    decreases n,
{
    if n <= 0 || n > order.len() {
        Seq::empty()
    } else {
        let d = defs[order[n - 1]];
        visited_weak_symbols(defs, order, n - 1) + entries_weak_symbols(
            all_entries(d),
            all_entries(d).len() as int,
        )
    }
}

/// The Objective-C classes contributed by the visited documents, in visiting order.
pub open spec fn visited_objc_classes(defs: Seq<DefinitionView>, order: Seq<int>, n: int) -> Seq<Seq<u8>>
    decreases n,
{
    if n <= 0 || n > order.len() {
        Seq::empty()
    } else {
        let d = defs[order[n - 1]];
        visited_objc_classes(defs, order, n - 1) + entries_objc_classes(
            all_entries(d),
            all_entries(d).len() as int,
        )
    }
}

/// Whether no two documents share an install name.
pub open spec fn install_names_unique(defs: Seq<DefinitionView>) -> bool {
    forall|i: int, j: int|
        0 <= i < defs.len() && 0 <= j < defs.len() && i != j ==> (#[trigger] defs[i]).install_name
            != (#[trigger] defs[j]).install_name
}

/// The walk over a stub's reexport graph, one step at a time.
pub struct StubResolver {
    /// Every known document: the file's own, then those of separately loaded files.
    pub definitions: Vec<TextBasedDefinition>,
    /// Documents waiting to be visited, by position; `head` is the next one.
    pub queue: Vec<usize>,
    pub head: usize,
    /// The visited documents, in visiting order.
    pub visited: Vec<usize>,
    /// The reexports of the last visited document; `next_reexport` is the next to resolve.
    pub reexports: Vec<Vec<u8>>,
    pub next_reexport: usize,
    /// What has been collected so far.
    pub library: DefinedStubLibrary,
}

impl StubResolver {
    /// The known documents as values.
    pub open spec fn defs(&self) -> Seq<DefinitionView> {
        views_of(self.definitions@)
    }

    /// The visited documents as positions.
    pub open spec fn order(&self) -> Seq<int> {
        self.visited@.map_values(|i: usize| i as int)
    }

    /// The walk's state is consistent: positions name known documents, install names are
    /// unique, and the collected symbols are those of the visited documents in visiting order.
    pub open spec fn wf(&self) -> bool {
        &&& self.head <= self.queue@.len()
        &&& self.queue@.len() >= 1 && self.queue@[0] == 0
        &&& self.definitions@.len() >= 1
        &&& self.head > 0 ==> self.visited@.len() > 0 && self.visited@[0] == 0
        &&& self.visited@.len() > 0 ==> self.head > 0
        &&& forall|q: int| 0 <= q < self.queue@.len() ==> #[trigger] self.queue@[q] < self.definitions@.len()
        &&& forall|v: int| 0 <= v < self.visited@.len() ==> #[trigger] self.visited@[v] < self.definitions@.len()
        &&& forall|a: int, b: int|
            0 <= a < b < self.visited@.len() ==> #[trigger] self.visited@[a] != #[trigger] self.visited@[b]
        &&& self.next_reexport <= self.reexports@.len()
        &&& install_names_unique(self.defs())
        &&& strings_view(self.library.symbols@) == visited_symbols(self.defs(), self.order(), self.order().len() as int)
        &&& strings_view(self.library.weak_symbols@) == visited_weak_symbols(self.defs(), self.order(), self.order().len() as int)
        &&& strings_view(self.library.objc_classes@) == visited_objc_classes(self.defs(), self.order(), self.order().len() as int)
    }
}

/// The state of the walk as plain values: the known documents, the queue of documents to visit
/// (by position) with its head, the visited documents in visiting order, and the reexports of the
/// last visited document with the next one to resolve.
pub struct WalkView {
    pub defs: Seq<DefinitionView>,
    pub queue: Seq<int>,
    pub head: int,
    pub visited: Seq<int>,
    pub reexports: Seq<Seq<u8>>,
    pub next: int,
}

/// What one step, or a run of steps, of the walk ends with.
pub enum WalkStep {
    Continue,
    Done,
    NeedExternal(Seq<u8>),
    Unsupported,
}

impl StubResolver {
    /// The walk's state as plain values.
    pub open spec fn walk_view(&self) -> WalkView {
        WalkView {
            defs: self.defs(),
            queue: self.queue@.map_values(|i: usize| i as int),
            head: self.head as int,
            visited: self.order(),
            reexports: strings_view(self.reexports@),
            next: self.next_reexport as int,
        }
    }
}

/// The first of the first `n` documents with this install name.
pub open spec fn find_name(defs: Seq<DefinitionView>, name: Seq<u8>, n: int) -> Option<int>
    decreases n,
{
    if n <= 0 || n > defs.len() {
        None
    } else {
        match find_name(defs, name, n - 1) {
            Some(i) => Some(i),
            None => if defs[n - 1].install_name == name {
                Some(n - 1)
            } else {
                None
            },
        }
    }
}

/// The documents' position of `name` is where the name stands, and there is none when no
/// document has it.
proof fn lemma_find_name(defs: Seq<DefinitionView>, name: Seq<u8>, n: int)
    requires
        0 <= n <= defs.len(),
    ensures
        find_name(defs, name, n) matches Some(i) ==> 0 <= i < n && defs[i].install_name == name
            && forall|j: int| 0 <= j < i ==> #[trigger] defs[j].install_name != name,
        find_name(defs, name, n) is None ==> forall|j: int| 0 <= j < n ==> #[trigger] defs[j].install_name != name,
    decreases n,
{
    if n > 0 {
        lemma_find_name(defs, name, n - 1);
    }
}

/// One step of the walk: resolve the next reexport of the last visited document (queueing the
/// known document of that name, or asking for it), else visit the next queued document unless
/// it was visited before; a visited document must be TBD version 4, contributes its exports, and
/// its `arm64e-macos` reexports become the ones to resolve next.
pub open spec fn spec_step(w: WalkView) -> (WalkStep, WalkView) {
    if 0 <= w.next < w.reexports.len() {
        let name = w.reexports[w.next];
        match find_name(w.defs, name, w.defs.len() as int) {
            Some(c) => (WalkStep::Continue, WalkView { queue: w.queue.push(c), next: w.next + 1, ..w }),
            None => (WalkStep::NeedExternal(name), w),
        }
    } else if w.head >= w.queue.len() || w.head < 0 {
        (WalkStep::Done, w)
    } else {
        let index = w.queue[w.head];
        if w.visited.contains(index) {
            (WalkStep::Continue, WalkView { head: w.head + 1, ..w })
        } else if w.defs[index].tbd_version != 4 {
            (WalkStep::Unsupported, WalkView { head: w.head + 1, ..w })
        } else {
            (WalkStep::Continue, WalkView {
                head: w.head + 1,
                visited: w.visited.push(index),
                reexports: reexport_names(
                    w.defs[index].reexported_libraries,
                    w.defs[index].reexported_libraries.len() as int,
                ),
                next: 0,
                ..w
            })
        }
    }
}

/// The positions in the walk lie within their sequences and no document is visited twice.
pub open spec fn walk_ok(w: WalkView) -> bool {
    &&& 0 <= w.head <= w.queue.len()
    &&& 0 <= w.next <= w.reexports.len()
    &&& forall|q: int| 0 <= q < w.queue.len() ==> 0 <= #[trigger] w.queue[q] < w.defs.len()
    &&& forall|v: int| 0 <= v < w.visited.len() ==> 0 <= #[trigger] w.visited[v] < w.defs.len()
    &&& forall|a: int, b: int| 0 <= a < b < w.visited.len() ==> #[trigger] w.visited[a] != #[trigger] w.visited[b]
}

/// Distinct positions below `n` number at most `n`.
pub proof fn lemma_distinct_bounded(s: Seq<int>, n: int)
    requires
        0 <= n,
        forall|v: int| 0 <= v < s.len() ==> 0 <= #[trigger] s[v] < n,
        forall|a: int, b: int| 0 <= a < b < s.len() ==> #[trigger] s[a] != #[trigger] s[b],
    ensures
        s.len() <= n,
{
    assert(s.no_duplicates()) by {
        assert forall|i: int, j: int| 0 <= i < s.len() && 0 <= j < s.len() && i != j implies s[i] != s[j] by {
            if i < j {
                assert(s[i] != s[j]);
            } else {
                assert(s[j] != s[i]);
            }
        }
    }
    s.unique_seq_to_set();
    vstd::set_lib::lemma_int_range(0, n);
    assert(s.to_set().subset_of(vstd::set_lib::set_int_range(0, n))) by {
        assert forall|x: int| s.to_set().contains(x) implies vstd::set_lib::set_int_range(0, n).contains(x) by {
            let i = choose|i: int| 0 <= i < s.len() && s[i] == x;
            assert(0 <= s[i] < n);
        }
    }
    vstd::set_lib::lemma_len_subset(s.to_set(), vstd::set_lib::set_int_range(0, n));
}

/// Visiting a document that was not visited keeps the visited documents fewer than the known
/// ones.
pub proof fn lemma_visit_bounded(w: WalkView, index: int)
    requires
        walk_ok(w),
        0 <= index < w.defs.len(),
        !w.visited.contains(index),
    ensures
        w.visited.len() + 1 <= w.defs.len(),
{
    let s = w.visited.push(index);
    assert forall|a: int, b: int| 0 <= a < b < s.len() implies #[trigger] s[a] != #[trigger] s[b] by {
        if b == w.visited.len() {
            assert(w.visited[a] != index);
        } else {
            assert(w.visited[a] != w.visited[b]);
        }
    }
    assert forall|v: int| 0 <= v < s.len() implies 0 <= #[trigger] s[v] < w.defs.len() by {
        if v < w.visited.len() {
            assert(0 <= w.visited[v] < w.defs.len());
        }
    }
    lemma_distinct_bounded(s, w.defs.len() as int);
}

/// Steps the walk until it is done, needs a document it does not have, or meets a document of
/// another TBD version.
pub open spec fn spec_run(w: WalkView) -> (WalkStep, WalkView)
    decreases w.defs.len() - w.visited.len(), w.reexports.len() - w.next, w.queue.len() - w.head,
{
    if !walk_ok(w) {
        (WalkStep::Unsupported, w)
    } else {
        let (s, w2) = spec_step(w);
        match s {
            WalkStep::Continue => {
                proof {
                    if !(0 <= w.next < w.reexports.len()) && 0 <= w.head < w.queue.len() {
                        let index = w.queue[w.head];
                        if !w.visited.contains(index) {
                            lemma_visit_bounded(w, index);
                        }
                    }
                }
                spec_run(w2)
            },
            _ => (s, w2),
        }
    }
}

/// A step of the walk keeps its positions in range.
proof fn lemma_step_ok(w: WalkView)
    requires
        walk_ok(w),
    ensures
        walk_ok(spec_step(w).1),
        spec_step(w).1.defs == w.defs,
{
    let w2 = spec_step(w).1;
    if 0 <= w.next < w.reexports.len() {
        let name = w.reexports[w.next];
        lemma_find_name(w.defs, name, w.defs.len() as int);
        if let Some(c) = find_name(w.defs, name, w.defs.len() as int) {
            assert forall|q: int| 0 <= q < w2.queue.len() implies 0 <= #[trigger] w2.queue[q] < w2.defs.len() by {
                if q < w.queue.len() {
                    assert(w2.queue[q] == w.queue[q]);
                }
            }
        }
    } else if 0 <= w.head < w.queue.len() {
        let index = w.queue[w.head];
        if !w.visited.contains(index) && w.defs[index].tbd_version == 4 {
            assert(0 <= index < w.defs.len());
            assert forall|v: int| 0 <= v < w2.visited.len() implies 0 <= #[trigger] w2.visited[v] < w2.defs.len() by {
                if v < w.visited.len() {
                    assert(w2.visited[v] == w.visited[v]);
                }
            }
            assert forall|a: int, b: int| 0 <= a < b < w2.visited.len() implies #[trigger] w2.visited[a]
                != #[trigger] w2.visited[b] by {
                if b == w.visited.len() {
                    assert(w2.visited[a] == w.visited[a]);
                    assert(w.visited[a] != index);
                } else {
                    assert(w.visited[a] != w.visited[b]);
                }
            }
        }
    }
}

/// Whether a step's result is the one the walk's step gives.
pub open spec fn step_matches(r: Result<StubStep, StubError>, s: WalkStep) -> bool {
    match s {
        WalkStep::Continue => r == Ok::<StubStep, StubError>(StubStep::Continue),
        WalkStep::Done => r == Ok::<StubStep, StubError>(StubStep::Done),
        WalkStep::NeedExternal(n) => r matches Ok(StubStep::NeedExternal(x)) && x@ == n,
        WalkStep::Unsupported => r == Err::<StubStep, StubError>(StubError::UnsupportedVersion),
    }
}

/// Whether a run's result is the one the walk's run gives.
pub open spec fn run_matches(r: Result<Option<Vec<u8>>, StubError>, s: WalkStep) -> bool {
    match s {
        WalkStep::Done => r matches Ok(None),
        WalkStep::NeedExternal(n) => r matches Ok(Some(x)) && x@ == n,
        WalkStep::Unsupported => r == Err::<Option<Vec<u8>>, StubError>(StubError::UnsupportedVersion),
        WalkStep::Continue => false,
    }
}

/// A well-formed walk keeps its positions in range.
proof fn lemma_wf_walk_ok(w: StubResolver)
    requires
        w.wf(),
    ensures
        walk_ok(w.walk_view()),
{
    let v = w.walk_view();
    assert forall|q: int| 0 <= q < v.queue.len() implies 0 <= #[trigger] v.queue[q] < v.defs.len() by {
        assert(w.queue@[q] < w.definitions@.len());
    }
    assert forall|i: int| 0 <= i < v.visited.len() implies 0 <= #[trigger] v.visited[i] < v.defs.len() by {
        assert(w.visited@[i] < w.definitions@.len());
    }
    assert forall|a: int, b: int| 0 <= a < b < v.visited.len() implies #[trigger] v.visited[a] != #[trigger] v.visited[b] by {
        assert(w.visited@[a] != w.visited@[b]);
    }
}

/// The start of the walk over `defs`: the first document is the root library, which must
/// target `arm64e-macos` and whose versions must parse, and no two documents may share an
/// install name; the walk then has only the root queued.
pub open spec fn spec_start(defs: Seq<DefinitionView>) -> Result<WalkView, StubError> {
    if defs.len() == 0 {
        Err(StubError::NoRootLibrary)
    } else if !defs[0].targets.contains(arm64_lib_arch()) {
        Err(StubError::RootNotArm64)
    } else {
        match spec_tbd_versions(defs[0].current_version, defs[0].compatibility_version) {
            Err(e) => Err(StubError::Version(e)),
            Ok(_) => if !install_names_unique(defs) {
                Err(StubError::DuplicateInstallName)
            } else {
                Ok(WalkView {
                    defs,
                    queue: seq![0int],
                    head: 0,
                    visited: Seq::empty(),
                    reexports: Seq::empty(),
                    next: 0,
                })
            },
        }
    }
}

/// Adds the documents of a separately loaded file to the walk, which needs the reexport
/// `w.reexports[w.next]`: the file must define that install name (its first document of that
/// name is queued) and no install name may then occur twice.
pub open spec fn spec_provide(w: WalkView, ext: Seq<DefinitionView>) -> Result<WalkView, StubError> {
    let name = w.reexports[w.next];
    match find_name(ext, name, ext.len() as int) {
        None => Err(StubError::ExternalNotDefined),
        Some(c) => if !install_names_unique(w.defs + ext) {
            Err(StubError::DuplicateInstallName)
        } else {
            Ok(WalkView { defs: w.defs + ext, queue: w.queue.push(w.defs.len() + c), next: w.next + 1, ..w })
        },
    }
}

/// Whether `r` is the library that the finished walk `w` over the documents `defs` collected:
/// the root's install name and versions, and the `arm64e-macos` symbols, weak symbols and
/// Objective-C classes of the visited documents, in visiting order.
pub open spec fn library_matches(
    r: Result<DefinedStubLibrary, StubError>,
    defs: Seq<DefinitionView>,
    w: WalkView,
) -> bool {
    r matches Ok(lib) && defs.len() > 0 && lib.install_name@ == defs[0].install_name
        && spec_tbd_versions(defs[0].current_version, defs[0].compatibility_version) == Ok::<
        DylibVersions,
        VersionError,
    >(lib.versions) && strings_view(lib.symbols@) == visited_symbols(
        w.defs,
        w.visited,
        w.visited.len() as int,
    ) && strings_view(lib.weak_symbols@) == visited_weak_symbols(w.defs, w.visited, w.visited.len() as int)
        && strings_view(lib.objc_classes@) == visited_objc_classes(w.defs, w.visited, w.visited.len() as int)
}

/// The walk over documents that must define every reexport themselves: its finished state, or
/// the error it stops with.
pub open spec fn spec_walk_within(defs: Seq<DefinitionView>) -> Result<WalkView, StubError> {
    match spec_start(defs) {
        Err(e) => Err(e),
        Ok(w) => match spec_run(w) {
            (WalkStep::Done, w2) => Ok(w2),
            (WalkStep::NeedExternal(_), _) => Err(StubError::ExternalNotDefined),
            _ => Err(StubError::UnsupportedVersion),
        },
    }
}

/// What the caller's loader answered for one request: the documents of the file that should
/// define the requested library, or the error the walk stops with.
pub type LoadAnswer = Result<Seq<DefinitionView>, StubError>;

/// The walk from `w` when the loader gives `answers` to its requests, in order: the finished
/// walk or the error it stops with (`None` when the answers are too few or too many for the
/// requests the walk makes), and the install names it requests.
#[verifier::opaque]
pub open spec fn spec_walk_with(w: WalkView, answers: Seq<LoadAnswer>) -> (
    Option<Result<WalkView, StubError>>,
    Seq<Seq<u8>>,
)
    decreases answers.len(),
{
    match spec_run(w) {
        (WalkStep::NeedExternal(name), w2) => if answers.len() == 0 {
            (None, Seq::empty())
        } else {
            let rest = match answers[0] {
                Err(e) => if answers.len() == 1 {
                    (Some(Err(e)), Seq::<Seq<u8>>::empty())
                } else {
                    (None, Seq::<Seq<u8>>::empty())
                },
                Ok(ext) => match spec_provide(w2, ext) {
                    Err(e) => if answers.len() == 1 {
                        (Some(Err(e)), Seq::<Seq<u8>>::empty())
                    } else {
                        (None, Seq::<Seq<u8>>::empty())
                    },
                    Ok(w3) => spec_walk_with(w3, answers.drop_first()),
                },
            };
            (rest.0, seq![name] + rest.1)
        },
        (WalkStep::Done, w2) => (
            if answers.len() == 0 {
                Some(Ok(w2))
            } else {
                None
            },
            Seq::empty(),
        ),
        (_, _) => (
            if answers.len() == 0 {
                Some(Err(StubError::UnsupportedVersion))
            } else {
                None
            },
            Seq::empty(),
        ),
    }
}

/// The walk with no answers left ends where its run ends.
pub proof fn lemma_walk_with_end(w: WalkView)
    ensures
        spec_walk_with(w, Seq::empty()) == (match spec_run(w) {
            (WalkStep::NeedExternal(_), _) => None,
            (WalkStep::Done, w2) => Some(Ok(w2)),
            (_, _) => Some(Err::<WalkView, StubError>(StubError::UnsupportedVersion)),
        }, Seq::<Seq<u8>>::empty()),
{
    reveal(spec_walk_with);
}

/// Where the run asks for `name`, the first answer decides how the walk goes on.
pub proof fn lemma_walk_with_answer(w: WalkView, a: LoadAnswer, f: Seq<LoadAnswer>)
    requires
        spec_run(w).0 is NeedExternal,
    ensures
        ({
            let name = spec_run(w).0->NeedExternal_0;
            let g = seq![a] + f;
            match a {
                Err(e) => spec_walk_with(w, g) == (if f.len() == 0 {
                    Some(Err::<WalkView, StubError>(e))
                } else {
                    None
                }, seq![name]),
                Ok(ext) => match spec_provide(spec_run(w).1, ext) {
                    Err(e) => spec_walk_with(w, g) == (if f.len() == 0 {
                        Some(Err::<WalkView, StubError>(e))
                    } else {
                        None
                    }, seq![name]),
                    Ok(w3) => spec_walk_with(w, g) == (spec_walk_with(w3, f).0, seq![name] + spec_walk_with(w3, f).1),
                },
            }
        }),
{
    reveal(spec_walk_with);
    let g = seq![a] + f;
    assert(g.drop_first() =~= f);
    assert(g[0] == a);
    assert(seq![spec_run(w).0->NeedExternal_0] + Seq::<Seq<u8>>::empty() =~= seq![spec_run(w).0->NeedExternal_0]);
}

/// Whether `r` is what a walk of the documents `defs` that ended with `outcome` returns.
pub open spec fn outcome_matches(
    r: Result<DefinedStubLibrary, StubError>,
    defs: Seq<DefinitionView>,
    outcome: Result<WalkView, StubError>,
) -> bool {
    match outcome {
        Ok(w) => library_matches(r, defs, w),
        Err(e) => r == Err::<DefinedStubLibrary, StubError>(e),
    }
}

/// The answer that a loader's documents give the walk: none is `ExternalNotDefined`.
pub open spec fn definitions_answer(out: Option<Vec<TextBasedDefinition>>) -> LoadAnswer {
    match out {
        None => Err(StubError::ExternalNotDefined),
        Some(v) => Ok(views_of(v@)),
    }
}

/// Whether `load`, called with the install name `name`, may have answered `answer`.
pub open spec fn loaded_definitions<F: Fn(&[u8]) -> Option<Vec<TextBasedDefinition>>>(
    load: F,
    name: Seq<u8>,
    answer: LoadAnswer,
) -> bool {
    exists|arg: &[u8], out: Option<Vec<TextBasedDefinition>>|
        #![trigger call_ensures(load, (arg,), out)]
        arg@ == name && call_ensures(load, (arg,), out) && definitions_answer(out) == answer
}

/// Whether the loader's `answers` to the walk from `w` over `defs`, each one it may have given
/// to the install name the walk requested, lead the walk to what `r` says.
pub open spec fn resolved_with_definitions<F: Fn(&[u8]) -> Option<Vec<TextBasedDefinition>>>(
    load: F,
    defs: Seq<DefinitionView>,
    w: WalkView,
    answers: Seq<LoadAnswer>,
    r: Result<DefinedStubLibrary, StubError>,
) -> bool {
    let (outcome, names) = spec_walk_with(w, answers);
    &&& outcome is Some
    &&& names.len() == answers.len()
    &&& forall|k: int| 0 <= k < answers.len() ==> loaded_definitions(load, names[k], #[trigger] answers[k])
    &&& outcome_matches(r, defs, outcome->Some_0)
}

/// The answer that the text a loader returns gives the walk: no text is `ExternalLoadFailed`,
/// text outside the regular spelling is `NotStandardSpelling`.
pub open spec fn text_answer(out: Option<Vec<u8>>) -> LoadAnswer {
    match out {
        None => Err(StubError::ExternalLoadFailed),
        Some(t) => match crate::tapi::spec_parse_standard_tapi_v4(t@) {
            None => Err(StubError::NotStandardSpelling),
            Some(d) => Ok(d),
        },
    }
}

/// Whether `load`, called with the install name `name`, may have answered with text that gives
/// `answer`.
pub open spec fn loaded_text<F: Fn(&[u8]) -> Option<Vec<u8>>>(
    load: F,
    name: Seq<u8>,
    answer: LoadAnswer,
) -> bool {
    exists|arg: &[u8], out: Option<Vec<u8>>|
        #![trigger call_ensures(load, (arg,), out)]
        arg@ == name && call_ensures(load, (arg,), out) && text_answer(out) == answer
}

/// Visiting one more document leaves the contribution of the earlier ones unchanged.
proof fn lemma_visited_push(defs: Seq<DefinitionView>, order: Seq<int>, x: int, n: int)
    requires
        0 <= n <= order.len(),
    ensures
        visited_symbols(defs, order.push(x), n) == visited_symbols(defs, order, n),
        visited_weak_symbols(defs, order.push(x), n) == visited_weak_symbols(defs, order, n),
        visited_objc_classes(defs, order.push(x), n) == visited_objc_classes(defs, order, n),
    decreases n,
{
    if n > 0 {
        lemma_visited_push(defs, order, x, n - 1);
        assert(order.push(x)[n - 1] == order[n - 1]);
    }
}

/// Adding documents leaves the contribution of the visited ones unchanged.
proof fn lemma_visited_extend(defs: Seq<DefinitionView>, more: Seq<DefinitionView>, order: Seq<int>, n: int)
    requires
        0 <= n <= order.len(),
        forall|v: int| 0 <= v < order.len() ==> 0 <= #[trigger] order[v] < defs.len(),
    ensures
        visited_symbols(defs + more, order, n) == visited_symbols(defs, order, n),
        visited_weak_symbols(defs + more, order, n) == visited_weak_symbols(defs, order, n),
        visited_objc_classes(defs + more, order, n) == visited_objc_classes(defs, order, n),
    decreases n,
{
    if n > 0 {
        lemma_visited_extend(defs, more, order, n - 1);
        assert((defs + more)[order[n - 1]] == defs[order[n - 1]]);
    }
}

/// Appends copies of `items` to `out`.
fn append_strings(out: &mut Vec<Vec<u8>>, items: &Vec<Vec<u8>>)
    ensures
        strings_view(final(out)@) == strings_view(old(out)@) + strings_view(items@),
{
    let mut i: usize = 0;
    while i < items.len()
        invariant
            0 <= i <= items@.len(),
            strings_view(out@) == strings_view(old(out)@) + strings_view(items@.take(i as int)),
        decreases items@.len() - i,
    {
        let ghost before = out@;
        out.push(vstd::slice::slice_to_vec(items[i].as_slice()));
        proof {
            assert(strings_view(out@) =~= strings_view(before).push(items@[i as int]@));
            assert(strings_view(items@.take(i + 1)) =~= strings_view(items@.take(i as int)).push(
                items@[i as int]@,
            ));
        }
        i = i + 1;
    }
    assert(items@.take(items@.len() as int) =~= items@);
}

/// Appends the `arm64e-macos` symbols, weak symbols and classes of a document's entries.
fn collect_arm64_exports(
    d: &TextBasedDefinition,
    symbols: &mut Vec<Vec<u8>>,
    weak_symbols: &mut Vec<Vec<u8>>,
    objc_classes: &mut Vec<Vec<u8>>,
)
    ensures
        strings_view(final(symbols)@) == strings_view(old(symbols)@) + entries_symbols(
            all_entries(d@),
            all_entries(d@).len() as int,
        ),
        strings_view(final(weak_symbols)@) == strings_view(old(weak_symbols)@) + entries_weak_symbols(
            all_entries(d@),
            all_entries(d@).len() as int,
        ),
        strings_view(final(objc_classes)@) == strings_view(old(objc_classes)@) + entries_objc_classes(
            all_entries(d@),
            all_entries(d@).len() as int,
        ),
{
    let all = d.all_exports();
    let ghost es = all_entries(d@);
    assert forall|k: int| 0 <= k < all@.len() implies (#[trigger] all@[k])@ == es[k] by {
        if k < d.exports@.len() {
            assert(es[k] == views_of(d.exports@)[k]);
        } else {
            assert(es[k] == views_of(d.reexports@)[k - d.exports@.len()]);
        }
    }
    let mut k: usize = 0;
    while k < all.len()
        invariant
            0 <= k <= all@.len(),
            all@.len() == es.len(),
            forall|j: int| 0 <= j < all@.len() ==> (#[trigger] all@[j])@ == es[j],
            strings_view(symbols@) == strings_view(old(symbols)@) + entries_symbols(es, k as int),
            strings_view(weak_symbols@) == strings_view(old(weak_symbols)@) + entries_weak_symbols(es, k as int),
            strings_view(objc_classes@) == strings_view(old(objc_classes)@) + entries_objc_classes(es, k as int),
        decreases all@.len() - k,
    {
        let e: &Exports = all[k];
        if names_arm64(&e.targets) {
            append_strings(symbols, &e.symbols);
            append_strings(weak_symbols, &e.weak_symbols);
            append_strings(objc_classes, &e.objc_classes);
            proof {
                assert(applies_to_arm64(es[k as int]));
            }
        }
        proof {
            assert(strings_view(old(symbols)@) + entries_symbols(es, k + 1) =~= strings_view(symbols@));
            assert(strings_view(old(weak_symbols)@) + entries_weak_symbols(es, k + 1) =~= strings_view(weak_symbols@));
            assert(strings_view(old(objc_classes)@) + entries_objc_classes(es, k + 1) =~= strings_view(objc_classes@));
        }
        k = k + 1;
    }
}

/// The install names a document reexports for `arm64e-macos`.
fn arm64_reexports(d: &TextBasedDefinition) -> (r: Vec<Vec<u8>>)
    ensures
        strings_view(r@) == reexport_names(
            d@.reexported_libraries,
            d@.reexported_libraries.len() as int,
        ),
{
    let ghost rs = d@.reexported_libraries;
    let mut names: Vec<Vec<u8>> = Vec::new();
    let mut k: usize = 0;
    while k < d.reexported_libraries.len()
        invariant
            0 <= k <= d.reexported_libraries@.len(),
            rs == views_of(d.reexported_libraries@),
            strings_view(names@) == reexport_names(rs, k as int),
        decreases d.reexported_libraries@.len() - k,
    {
        let r = &d.reexported_libraries[k];
        assert(rs[k as int] == r@);
        let ghost before = names@;
        if names_arm64(&r.targets) {
            append_strings(&mut names, &r.libraries);
        }
        assert(strings_view(names@) =~= reexport_names(rs, k + 1));
        k = k + 1;
    }
    names
}

impl StubResolver {
    /// The position of the known document with this install name.
    pub fn find_definition(&self, name: &[u8]) -> (r: Option<usize>)
        ensures
            match r {
                Some(i) => i < self.definitions@.len() && self.defs()[i as int].install_name == name@,
                None => forall|i: int|
                    0 <= i < self.definitions@.len() ==> #[trigger] self.defs()[i].install_name != name@,
            },
    {
        let mut i: usize = 0;
        while i < self.definitions.len()
            invariant
                0 <= i <= self.definitions@.len(),
                forall|j: int| 0 <= j < i ==> #[trigger] self.defs()[j].install_name != name@,
            decreases self.definitions@.len() - i,
        {
            assert(self.defs()[i as int] == self.definitions@[i as int]@);
            if crate::segment::bytes_equal(self.definitions[i].install_name.as_slice(), name) {
                return Some(i);
            }
            i = i + 1;
        }
        None
    }

    /// Whether the document at `index` was visited.
    fn is_visited(&self, index: usize) -> (r: bool)
        ensures
            r == self.visited@.contains(index),
    {
        let mut i: usize = 0;
        while i < self.visited.len()
            invariant
                0 <= i <= self.visited@.len(),
                forall|j: int| 0 <= j < i ==> self.visited@[j] != index,
            decreases self.visited@.len() - i,
        {
            if self.visited[i] == index {
                return true;
            }
            i = i + 1;
        }
        false
    }

    /// Takes the next step of the walk: resolve the next reexport of the last visited document
    /// (queueing a known document or asking for an unknown one), or visit the next queued
    /// document unless it was visited before. A visited document contributes its
    /// `arm64e-macos` exports and its `arm64e-macos` reexports; it must be TBD version 4.
    pub fn step(&mut self) -> (r: Result<StubStep, StubError>)
        requires
            old(self).wf(),
        ensures
            step_matches(r, spec_step(old(self).walk_view()).0),
            final(self).walk_view() == spec_step(old(self).walk_view()).1,
            final(self).definitions@ == old(self).definitions@,
            r is Ok ==> final(self).wf(),
            final(self).library.install_name@ == old(self).library.install_name@,
            final(self).library.versions == old(self).library.versions,
            old(self).next_reexport < old(self).reexports@.len() ==> ({
                let name = old(self).reexports@[old(self).next_reexport as int]@;
                match r {
                    Ok(StubStep::NeedExternal(n)) => n@ == name && (forall|i: int|
                        0 <= i < old(self).definitions@.len() ==> #[trigger] old(self).defs()[i].install_name
                            != name) && final(self).queue@ == old(self).queue@
                        && final(self).next_reexport == old(self).next_reexport
                        && final(self).reexports@ == old(self).reexports@
                        && final(self).head == old(self).head
                        && final(self).visited@ == old(self).visited@,
                    Ok(StubStep::Continue) => final(self).next_reexport == old(self).next_reexport + 1
                        && final(self).queue@.len() == old(self).queue@.len() + 1
                        && old(self).defs()[final(self).queue@.last() as int].install_name == name
                        && final(self).order() == old(self).order()
                        && final(self).visited@ == old(self).visited@
                        && final(self).reexports@ == old(self).reexports@,
                    _ => false,
                }
            }),
            old(self).next_reexport >= old(self).reexports@.len() && old(self).head >= old(self).queue@.len() ==> r == Ok::<StubStep, StubError>(StubStep::Done) && final(self).head
                == old(self).head && final(self).queue@ == old(self).queue@ && final(self).next_reexport
                == old(self).next_reexport && final(self).reexports@ == old(self).reexports@,
            old(self).next_reexport >= old(self).reexports@.len() && old(self).head < old(self).queue@.len() ==> ({
                let index = old(self).queue@[old(self).head as int];
                &&& final(self).head == old(self).head + 1
                &&& old(self).visited@.contains(index) ==> r == Ok::<StubStep, StubError>(StubStep::Continue)
                    && final(self).order() == old(self).order() && final(self).visited@ == old(self).visited@
                    && final(self).queue@ == old(self).queue@ && final(self).reexports@ == old(self).reexports@
                    && final(self).next_reexport == old(self).next_reexport
                &&& !old(self).visited@.contains(index) && old(self).defs()[index as int].tbd_version
                    != 4 ==> r == Err::<StubStep, StubError>(StubError::UnsupportedVersion)
                    && final(self).queue@ == old(self).queue@ && final(self).visited@ == old(self).visited@
                &&& !old(self).visited@.contains(index) && old(self).defs()[index as int].tbd_version
                    == 4 ==> r == Ok::<StubStep, StubError>(StubStep::Continue) && final(self).order()
                    == old(self).order().push(index as int) && final(self).visited@.len() == old(self).visited@.len() + 1
                    && strings_view(final(self).reexports@)
                    == reexport_names(
                    old(self).defs()[index as int].reexported_libraries,
                    old(self).defs()[index as int].reexported_libraries.len() as int,
                ) && final(self).next_reexport == 0
            }),
    {
        let ghost w = self.walk_view();
        if self.next_reexport < self.reexports.len() {
            let name = vstd::slice::slice_to_vec(self.reexports[self.next_reexport].as_slice());
            proof {
                assert(name@ == w.reexports[w.next]);
                lemma_find_name(w.defs, name@, w.defs.len() as int);
            }
            match self.find_definition(name.as_slice()) {
                Some(child) => {
                    proof {
                        let j = find_name(w.defs, name@, w.defs.len() as int)->Some_0;
                        if j != child {
                            assert(w.defs[j].install_name == w.defs[child as int].install_name);
                        }
                    }
                    let ghost q0 = self.queue@;
                    self.queue.push(child);
                    assert(self.queue@.map_values(|i: usize| i as int) =~= q0.map_values(|i: usize| i as int).push(child as int));
                    self.next_reexport = self.next_reexport + 1;
                    return Ok(StubStep::Continue);
                },
                None => {
                    return Ok(StubStep::NeedExternal(name));
                },
            }
        }
        if self.head >= self.queue.len() {
            return Ok(StubStep::Done);
        }
        let index = self.queue[self.head];
        self.head = self.head + 1;
        proof {
            assert(index as int == w.queue[w.head]);
            if self.visited@.contains(index) {
                let k = choose|k: int| 0 <= k < self.visited@.len() && self.visited@[k] == index;
                assert(w.visited[k] == index as int);
            }
            if w.visited.contains(index as int) {
                let k = choose|k: int| 0 <= k < w.visited.len() && w.visited[k] == index as int;
                assert(self.visited@[k] == index);
            }
        }
        if self.is_visited(index) {
            return Ok(StubStep::Continue);
        }
        if self.definitions[index].tbd_version != 4 {
            return Err(StubError::UnsupportedVersion);
        }
        let ghost old_order = self.order();
        let ghost defs = self.defs();
        proof {
            lemma_visited_push(defs, old_order, index as int, old_order.len() as int);
            assert(defs[index as int] == self.definitions@[index as int]@);
        }
        self.visited.push(index);
        assert(self.order() =~= old_order.push(index as int));
        assert(index as int == w.queue[w.head]);
        let d = &self.definitions[index];
        collect_arm64_exports(
            d,
            &mut self.library.symbols,
            &mut self.library.weak_symbols,
            &mut self.library.objc_classes,
        );
        self.reexports = arm64_reexports(d);
        self.next_reexport = 0;
        Ok(StubStep::Continue)
    }

    /// Adds the documents of a separately loaded TBD file that should define the reexport the
    /// walk asked for, and queues that library. Fails when the file does not define it or
    /// repeats a known install name.
    pub fn provide_external(&mut self, definitions: Vec<TextBasedDefinition>) -> (r: Result<
        (),
        StubError,
    >)
        requires
            old(self).wf(),
            old(self).next_reexport < old(self).reexports@.len(),
        ensures
            match spec_provide(old(self).walk_view(), views_of(definitions@)) {
                Ok(v) => r is Ok && final(self).walk_view() == v,
                Err(e) => r == Err::<(), StubError>(e),
            },
            r is Ok ==> final(self).wf(),
            r is Ok ==> final(self).defs() == old(self).defs() + views_of(definitions@),
            r is Ok ==> final(self).next_reexport == old(self).next_reexport + 1,
            r is Ok ==> final(self).queue@.len() == old(self).queue@.len() + 1 && final(self).defs()[final(self).queue@.last() as int].install_name == old(self).reexports@[old(self).next_reexport as int]@,
            (forall|i: int|
                0 <= i < definitions@.len() ==> (#[trigger] definitions@[i])@.install_name != old(self).reexports@[old(self).next_reexport as int]@) ==> r == Err::<(), StubError>(StubError::ExternalNotDefined),
            final(self).library.install_name@ == old(self).library.install_name@,
            final(self).library.versions == old(self).library.versions,
    {
        let name = vstd::slice::slice_to_vec(self.reexports[self.next_reexport].as_slice());
        let mut child: Option<usize> = None;
        let mut i: usize = 0;
        while i < definitions.len()
            invariant
                0 <= i <= definitions@.len(),
                child is None ==> forall|j: int| 0 <= j < i ==> (#[trigger] definitions@[j])@.install_name != name@,
                child matches Some(c) ==> c < definitions@.len() && definitions@[c as int]@.install_name == name@,
                child matches Some(c) ==> find_name(views_of(definitions@), name@, i as int) == Some(c as int),
                child is None ==> find_name(views_of(definitions@), name@, i as int) is None,
            decreases definitions@.len() - i,
        {
            assert(views_of(definitions@)[i as int] == definitions@[i as int]@);
            if child.is_none() && crate::segment::bytes_equal(definitions[i].install_name.as_slice(), name.as_slice()) {
                child = Some(i);
            }
            i = i + 1;
        }
        let child = match child {
            Some(c) => c,
            None => {
                return Err(StubError::ExternalNotDefined);
            },
        };
        let first = self.definitions.len();
        assert(strings_view(self.reexports@)[self.next_reexport as int] == name@);
        let ghost old_defs = self.defs();
        let ghost added = views_of(definitions@);
        let ghost defs_in = definitions@;
        assert(defs_in[child as int]@.install_name == name@);
        let mut incoming = definitions;
        let mut k: usize = 0;
        while incoming.len() > 0
            invariant
                k + incoming@.len() == added.len(),
                self.definitions@.len() == first + k,
                self.defs() == old_defs + added.take(k as int),
                views_of(incoming@) == added.skip(k as int),
                install_names_unique(self.defs()),
                first == old_defs.len(),
                old_defs == old(self).defs(),
                child < added.len(),
                added[child as int].install_name == name@,
                find_name(added, name@, added.len() as int) == Some(child as int),
                added == views_of(defs_in),
                old(self).walk_view().reexports[old(self).walk_view().next] == name@,
                defs_in == definitions@,
                defs_in.len() == added.len(),
                defs_in[child as int]@.install_name == name@,
                old(self).wf(),
                old(self).next_reexport < old(self).reexports@.len(),
                name@ == old(self).reexports@[old(self).next_reexport as int]@,
                self.visited@ == old(self).visited@,
                self.queue@ == old(self).queue@,
                self.head == old(self).head,
                self.reexports@ == old(self).reexports@,
                self.next_reexport == old(self).next_reexport,
                self.library.install_name@ == old(self).library.install_name@,
                self.library.versions == old(self).library.versions,
                self.library.symbols@ == old(self).library.symbols@,
                self.library.weak_symbols@ == old(self).library.weak_symbols@,
                self.library.objc_classes@ == old(self).library.objc_classes@,
            decreases incoming@.len(),
        {
            let ghost inc = incoming@;
            assert(views_of(inc)[0] == inc[0]@);
            assert(added.skip(k as int)[0] == added[k as int]);
            let d = incoming.remove(0);
            assert(d@ == added[k as int]);
            match self.find_definition(d.install_name.as_slice()) {
                Some(idx) => {
                    proof {
                        let all = old_defs + added;
                        assert(all[idx as int] == self.defs()[idx as int]);
                        assert(all[first + k] == d@);
                        assert(!install_names_unique(all));
                        let w = old(self).walk_view();
                        assert(w.defs == old_defs);
                        assert(views_of(definitions@) == added);
                        assert(find_name(added, w.reexports[w.next], added.len() as int) == Some(child as int));
                        assert(spec_provide(w, added) == Err::<WalkView, StubError>(StubError::DuplicateInstallName));
                    }
                    return Err(StubError::DuplicateInstallName);
                },
                None => {},
            }
            let ghost before = self.defs();
            self.definitions.push(d);
            let _len = self.definitions.len();
            proof {
                assert(self.defs() =~= before.push(d@));
                assert(added.take(k + 1) =~= added.take(k as int).push(d@));
                assert(incoming@ =~= inc.subrange(1, inc.len() as int));
                assert forall|j: int| 0 <= j < incoming@.len() implies #[trigger] views_of(incoming@)[j]
                    == added.skip(k + 1)[j] by {
                    assert(views_of(inc)[j + 1] == inc[j + 1]@);
                    assert(added.skip(k as int)[j + 1] == added.skip(k + 1)[j]);
                }
                assert(views_of(incoming@) =~= added.skip(k + 1));
            }
            k = k + 1;
        }
        assert(added.take(k as int) =~= added);
        proof {
            lemma_visited_extend(old_defs, added, self.order(), self.order().len() as int);
        }
        assert(self.defs()[(first + child) as int] == added[child as int]);
        let _defs_len = self.definitions.len();
        let _reexports_len = self.reexports.len();
        assert(first + child < self.definitions@.len());
        let ghost q0 = self.queue@;
        self.queue.push(first + child);
        self.next_reexport = self.next_reexport + 1;
        proof {
            assert(self.queue@.map_values(|i: usize| i as int) =~= q0.map_values(|i: usize| i as int).push(first + child));
            assert(self.defs() == old_defs + added);
            assert(views_of(defs_in) == added);
        }
        Ok(())
    }
}

/// A walk visits each document at most once, so it visits at most as many as there are.
proof fn lemma_visited_bounded(visited: Seq<usize>, n: int)
    requires
        forall|v: int| 0 <= v < visited.len() ==> #[trigger] visited[v] < n,
        forall|a: int, b: int| 0 <= a < b < visited.len() ==> #[trigger] visited[a] != #[trigger] visited[b],
        0 <= n,
    ensures
        visited.len() <= n,
{
    let s = visited.map_values(|x: usize| x as int);
    assert(s.no_duplicates()) by {
        assert forall|i: int, j: int| 0 <= i < s.len() && 0 <= j < s.len() && i != j implies s[i] != s[j] by {
            if i < j {
                assert(visited[i] != visited[j]);
            } else {
                assert(visited[j] != visited[i]);
            }
        }
    }
    s.unique_seq_to_set();
    vstd::set_lib::lemma_int_range(0, n);
    assert(s.to_set().subset_of(vstd::set_lib::set_int_range(0, n))) by {
        assert forall|x: int| s.to_set().contains(x) implies vstd::set_lib::set_int_range(0, n).contains(x) by {
            let i = choose|i: int| 0 <= i < s.len() && s[i] == x;
            assert(visited[i] < n);
        }
    }
    vstd::set_lib::lemma_len_subset(s.to_set(), vstd::set_lib::set_int_range(0, n));
}

impl StubResolver {
    /// Starts the walk at the first document, the root library, which must target
    /// `arm64e-macos` and whose versions must parse; no two documents may share an install name.
    pub fn new(definitions: Vec<TextBasedDefinition>) -> (r: Result<StubResolver, StubError>)
        ensures
            match spec_start(views_of(definitions@)) {
                Ok(v) => r matches Ok(w) && w.walk_view() == v,
                Err(e) => r == Err::<StubResolver, StubError>(e),
            },
            definitions@.len() == 0 ==> r == Err::<StubResolver, StubError>(StubError::NoRootLibrary),
            definitions@.len() > 0 ==> ({
                let root = definitions@[0]@;
                &&& !root.targets.contains(arm64_lib_arch()) ==> r == Err::<StubResolver, StubError>(
                    StubError::RootNotArm64,
                )
                &&& root.targets.contains(arm64_lib_arch()) ==> match spec_tbd_versions(
                    root.current_version,
                    root.compatibility_version,
                ) {
                    Err(e) => r == Err::<StubResolver, StubError>(StubError::Version(e)),
                    Ok(versions) => match r {
                        Ok(w) => install_names_unique(views_of(definitions@)) && w.wf()
                            && w.defs() == views_of(definitions@) && w.queue@ == seq![0usize]
                            && w.head == 0 && w.visited@.len() == 0 && w.reexports@.len() == 0
                            && w.library.install_name@ == root.install_name
                            && w.library.versions == versions,
                        Err(e) => e == StubError::DuplicateInstallName && !install_names_unique(
                            views_of(definitions@),
                        ),
                    },
                }
            }),
    {
        if definitions.len() == 0 {
            return Err(StubError::NoRootLibrary);
        }
        assert(views_of(definitions@)[0] == definitions@[0]@);
        if !names_arm64(&definitions[0].targets) {
            return Err(StubError::RootNotArm64);
        }
        let versions = match DylibVersions::tbd(
            definitions[0].current_version.as_slice(),
            definitions[0].compatibility_version.as_slice(),
        ) {
            Ok(v) => v,
            Err(e) => {
                return Err(StubError::Version(e));
            },
        };
        let ghost defs = views_of(definitions@);
        let mut i: usize = 0;
        while i < definitions.len()
            invariant
                0 <= i <= definitions@.len(),
                defs == views_of(definitions@),
                definitions@.len() > 0,
                defs[0].targets.contains(arm64_lib_arch()),
                spec_tbd_versions(defs[0].current_version, defs[0].compatibility_version) == Ok::<DylibVersions, VersionError>(versions),
                forall|a: int, b: int|
                    0 <= a < i && 0 <= b < definitions@.len() && a != b ==> (#[trigger] defs[a]).install_name
                        != (#[trigger] defs[b]).install_name,
            decreases definitions@.len() - i,
        {
            let mut j: usize = 0;
            while j < definitions.len()
                invariant
                    0 <= i < definitions@.len(),
                    0 <= j <= definitions@.len(),
                    defs == views_of(definitions@),
                    defs[0].targets.contains(arm64_lib_arch()),
                    spec_tbd_versions(defs[0].current_version, defs[0].compatibility_version) == Ok::<DylibVersions, VersionError>(versions),
                    forall|a: int, b: int|
                        0 <= a < i && 0 <= b < definitions@.len() && a != b ==> (#[trigger] defs[a]).install_name
                            != (#[trigger] defs[b]).install_name,
                    forall|b: int| 0 <= b < j && b != i ==> defs[i as int].install_name != (#[trigger] defs[b]).install_name,
                decreases definitions@.len() - j,
            {
                if i != j && crate::segment::bytes_equal(
                    definitions[i].install_name.as_slice(),
                    definitions[j].install_name.as_slice(),
                ) {
                    assert(defs[i as int].install_name == defs[j as int].install_name);
                    return Err(StubError::DuplicateInstallName);
                }
                j = j + 1;
            }
            i = i + 1;
        }
        let install_name = vstd::slice::slice_to_vec(definitions[0].install_name.as_slice());
        let mut queue: Vec<usize> = Vec::new();
        queue.push(0);
        let w = StubResolver {
            definitions,
            queue,
            head: 0,
            visited: Vec::new(),
            reexports: Vec::new(),
            next_reexport: 0,
            library: DefinedStubLibrary {
                install_name,
                versions,
                symbols: Vec::new(),
                weak_symbols: Vec::new(),
                objc_classes: Vec::new(),
            },
        };
        assert(strings_view(w.library.symbols@) =~= Seq::<Seq<u8>>::empty());
        assert(strings_view(w.library.weak_symbols@) =~= Seq::<Seq<u8>>::empty());
        assert(strings_view(w.library.objc_classes@) =~= Seq::<Seq<u8>>::empty());
        assert(w.queue@ =~= seq![0usize]);
        assert(w.queue@.map_values(|i: usize| i as int) =~= seq![0int]);
        assert(w.order() =~= Seq::<int>::empty());
        assert(strings_view(w.reexports@) =~= Seq::<Seq<u8>>::empty());
        Ok(w)
    }

    /// Steps until the walk is done (`None`) or needs a document it does not have (the install
    /// name).
    pub fn run(&mut self) -> (r: Result<Option<Vec<u8>>, StubError>)
        requires
            old(self).wf(),
        ensures
            run_matches(r, spec_run(old(self).walk_view()).0),
            final(self).walk_view() == spec_run(old(self).walk_view()).1,
            r is Ok ==> final(self).wf(),
            final(self).defs() == old(self).defs(),
            final(self).library.install_name@ == old(self).library.install_name@,
            final(self).library.versions == old(self).library.versions,
            r matches Ok(None) ==> final(self).head >= final(self).queue@.len()
                && final(self).next_reexport >= final(self).reexports@.len(),
            r matches Ok(Some(name)) ==> final(self).next_reexport < final(self).reexports@.len()
                && name@ == final(self).reexports@[final(self).next_reexport as int]@ && forall|i: int|
                0 <= i < final(self).definitions@.len() ==> #[trigger] final(self).defs()[i].install_name
                    != name@,
            r is Err ==> r == Err::<Option<Vec<u8>>, StubError>(StubError::UnsupportedVersion) && ({
                let index = final(self).queue@[final(self).head - 1];
                &&& 1 <= final(self).head <= final(self).queue@.len()
                &&& index < final(self).definitions@.len()
                &&& !final(self).visited@.contains(index)
                &&& final(self).defs()[index as int].tbd_version != 4
            }),
            (forall|i: int| 0 <= i < old(self).definitions@.len() ==> #[trigger] old(self).defs()[i].tbd_version == 4)
                ==> r is Ok,
    {
        loop
            invariant
                self.wf(),
                self.defs() == old(self).defs(),
                self.library.install_name@ == old(self).library.install_name@,
                self.library.versions == old(self).library.versions,
                spec_run(self.walk_view()) == spec_run(old(self).walk_view()),
            decreases self.definitions@.len() - self.visited@.len(), self.reexports@.len()
                - self.next_reexport, self.queue@.len() - self.head,
        {
            proof {
                lemma_visited_bounded(self.visited@, self.definitions@.len() as int);
            }
            proof {
                lemma_wf_walk_ok(*self);
            }
            let step = match self.step() {
                Ok(step) => step,
                Err(e) => {
                    proof {
                        let index = self.queue@[self.head - 1];
                        assert(old(self).defs()[index as int].tbd_version != 4);
                    }
                    return Err(e);
                },
            };
            match step {
                StubStep::Done => {
                    return Ok(None);
                },
                StubStep::NeedExternal(name) => {
                    return Ok(Some(name));
                },
                StubStep::Continue => {
                    proof {
                        lemma_visited_bounded(self.visited@, self.definitions@.len() as int);
                    }
                },
            }
        }
    }

    /// The collected library.
    pub fn finish(self) -> (r: DefinedStubLibrary)
        ensures
            r == self.library,
    {
        self.library
    }
}

/// The documents of a TBD file in the regular spelling, or `None` for a file that a complete
/// YAML reader has to read.
pub fn parse_library_definitions(input: &[u8]) -> (r: Option<Vec<TextBasedDefinition>>)
    ensures
        match crate::tapi::spec_parse_standard_tapi_v4(input@) {
            None => r is None,
            Some(v) => r matches Some(x) && views_of(x@) == v,
        },
{
    crate::tapi::parse_standard_tapi_v4(input)
}

/// Resolves a stub from its documents: walks the reexports of the root library through the
/// documents it has and those that `load_external_reexport` supplies for an install name it
/// does not have.
#[verifier::spinoff_prover]
pub fn resolve_defined_library<F: Fn(&[u8]) -> Option<Vec<TextBasedDefinition>>>(
    definitions: Vec<TextBasedDefinition>,
    load_external_reexport: F,
) -> (r: Result<DefinedStubLibrary, StubError>)
    requires
        forall|name: &[u8]| load_external_reexport.requires((name,)),
    ensures
        match spec_start(views_of(definitions@)) {
            Err(e) => r == Err::<DefinedStubLibrary, StubError>(e),
            Ok(w) => exists|answers: Seq<LoadAnswer>|
                #[trigger] resolved_with_definitions(load_external_reexport, views_of(definitions@), w, answers, r),
        },
{
    let ghost initial = views_of(definitions@);
    let mut walk = match StubResolver::new(definitions) {
        Ok(w) => w,
        Err(e) => {
            return Err(e);
        },
    };
    let ghost start = walk.walk_view();
    let ghost mut answers: Seq<LoadAnswer> = Seq::empty();
    let ghost mut names: Seq<Seq<u8>> = Seq::empty();
    proof {
        assert forall|f: Seq<LoadAnswer>| #[trigger] spec_walk_with(start, answers + f)
            == (spec_walk_with(walk.walk_view(), f).0, names + spec_walk_with(walk.walk_view(), f).1) by {
            assert(answers + f =~= f);
            assert(names + spec_walk_with(walk.walk_view(), f).1 =~= spec_walk_with(walk.walk_view(), f).1);
        }
    }
    loop
        invariant
            walk.wf(),
            initial.len() >= 1,
            initial == views_of(definitions@),
            spec_start(initial) == Ok::<WalkView, StubError>(start),
            forall|name: &[u8]| load_external_reexport.requires((name,)),
            names.len() == answers.len(),
            forall|k: int| 0 <= k < answers.len() ==> loaded_definitions(load_external_reexport, names[k], #[trigger] answers[k]),
            forall|f: Seq<LoadAnswer>| #[trigger] spec_walk_with(start, answers + f)
                == (spec_walk_with(walk.walk_view(), f).0, names + spec_walk_with(walk.walk_view(), f).1),
            walk.library.install_name@ == initial[0].install_name,
            spec_tbd_versions(initial[0].current_version, initial[0].compatibility_version) == Ok::<DylibVersions, VersionError>(walk.library.versions),
        decreases usize::MAX - walk.definitions@.len(),
    {
        let ghost wc = walk.walk_view();
        proof {
            lemma_wf_walk_ok(walk);
        }
        let ran = walk.run();
        let name = match ran {
            Ok(None) => {
                let lib = walk.finish();
                proof {
                    lemma_walk_with_end(wc);
                    assert(answers + Seq::<LoadAnswer>::empty() =~= answers);
                    assert(names + Seq::<Seq<u8>>::empty() =~= names);
                    assert(spec_walk_with(start, answers + Seq::<LoadAnswer>::empty()) == spec_walk_with(start, answers));
                    assert(library_matches(Ok::<DefinedStubLibrary, StubError>(lib), initial, walk.walk_view()));
                    assert(resolved_with_definitions(load_external_reexport, views_of(definitions@), spec_start(views_of(definitions@))->Ok_0, answers, Ok::<DefinedStubLibrary, StubError>(lib)));
                }
                return Ok(lib);
            },
            Ok(Some(name)) => name,
            Err(e) => {
                proof {
                    lemma_walk_with_end(wc);
                    assert(answers + Seq::<LoadAnswer>::empty() =~= answers);
                    assert(names + Seq::<Seq<u8>>::empty() =~= names);
                    assert(spec_walk_with(start, answers + Seq::<LoadAnswer>::empty()) == spec_walk_with(start, answers));
                    assert(resolved_with_definitions(load_external_reexport, views_of(definitions@), spec_start(views_of(definitions@))->Ok_0, answers, Err::<DefinedStubLibrary, StubError>(e)));
                }
                return Err(e);
            },
        };
        let out = load_external_reexport(name.as_slice());
        let ghost a = definitions_answer(out);
        let ghost old_answers = answers;
        let ghost old_names = names;
        proof {
            assert(loaded_definitions(load_external_reexport, name@, a));
            answers = answers.push(a);
            names = names.push(name@);
            assert(answers =~= old_answers + seq![a]);
            assert(names =~= old_names + seq![name@]);
            lemma_walk_with_answer(wc, a, Seq::empty());
            assert(seq![a] + Seq::<LoadAnswer>::empty() =~= seq![a]);
            assert(spec_walk_with(start, old_answers + seq![a]) == (spec_walk_with(wc, seq![a]).0, old_names + spec_walk_with(wc, seq![a]).1));
            assert forall|k: int| 0 <= k < answers.len() implies loaded_definitions(load_external_reexport, names[k], #[trigger] answers[k]) by {
                if k < old_answers.len() {
                    assert(answers[k] == old_answers[k]);
                    assert(names[k] == old_names[k]);
                }
            }
        }
        let external = match out {
            Some(defs) => defs,
            None => {
                proof {
                    assert(resolved_with_definitions(load_external_reexport, views_of(definitions@), spec_start(views_of(definitions@))->Ok_0, answers, Err::<DefinedStubLibrary, StubError>(StubError::ExternalNotDefined)));
                }
                return Err(StubError::ExternalNotDefined);
            },
        };
        proof {
            lemma_wf_walk_ok(walk);
        }
        let ghost wn = walk.walk_view();
        if external.len() == 0 {
            proof {
                assert(views_of(external@).len() == 0);
                assert(find_name(views_of(external@), wn.reexports[wn.next], 0) is None);
                assert(resolved_with_definitions(load_external_reexport, views_of(definitions@), spec_start(views_of(definitions@))->Ok_0, answers, Err::<DefinedStubLibrary, StubError>(StubError::ExternalNotDefined)));
            }
            return Err(StubError::ExternalNotDefined);
        }
        match walk.provide_external(external) {
            Ok(()) => {},
            Err(e) => {
                proof {
                    assert(resolved_with_definitions(load_external_reexport, views_of(definitions@), spec_start(views_of(definitions@))->Ok_0, answers, Err::<DefinedStubLibrary, StubError>(e)));
                }
                return Err(e);
            },
        }
        let _n = walk.definitions.len();
        proof {
            assert forall|f: Seq<LoadAnswer>| #[trigger] spec_walk_with(start, answers + f)
                == (spec_walk_with(walk.walk_view(), f).0, names + spec_walk_with(walk.walk_view(), f).1) by {
                let g = seq![a] + f;
                assert(answers + f =~= old_answers + g);
                lemma_walk_with_answer(wc, a, f);
                assert(spec_walk_with(start, old_answers + g) == (spec_walk_with(wc, g).0, old_names + spec_walk_with(wc, g).1));
                assert(names + spec_walk_with(walk.walk_view(), f).1 =~= old_names + (seq![name@] + spec_walk_with(walk.walk_view(), f).1));
            }
        }
    }
}

/// Resolves a stub from the text of a TBD file in the regular spelling whose reexports are all
/// defined within the file.
pub fn parse_defined_library(input: &[u8]) -> (r: Result<DefinedStubLibrary, StubError>)
    ensures
        match crate::tapi::spec_parse_standard_tapi_v4(input@) {
            None => r == Err::<DefinedStubLibrary, StubError>(StubError::NotStandardSpelling),
            Some(defs) => match spec_walk_within(defs) {
                Ok(w) => library_matches(r, defs, w),
                Err(e) => r == Err::<DefinedStubLibrary, StubError>(e),
            },
        },
{
    let definitions = match parse_library_definitions(input) {
        Some(d) => d,
        None => {
            return Err(StubError::NotStandardSpelling);
        },
    };
    let ghost defs0 = views_of(definitions@);
    let mut walk = match StubResolver::new(definitions) {
        Ok(w) => w,
        Err(e) => {
            return Err(e);
        },
    };
    match walk.run() {
        Ok(None) => Ok(walk.finish()),
        Ok(Some(_)) => Err(StubError::ExternalNotDefined),
        Err(e) => Err(e),
    }
}

/// The prefix of an Objective-C class symbol.
pub open spec fn objc_class_prefix() -> Seq<u8> {
    seq![95u8, 79, 66, 74, 67, 95, 67, 76, 65, 83, 83, 95, 36, 95]
}

/// The prefix of an Objective-C metaclass symbol.
pub open spec fn objc_metaclass_prefix() -> Seq<u8> {
    seq![95u8, 79, 66, 74, 67, 95, 77, 69, 84, 65, 67, 76, 65, 83, 83, 95, 36, 95]
}

/// The class and metaclass symbols of the first `k` Objective-C classes.
pub open spec fn objc_class_symbols(classes: Seq<Seq<u8>>, k: int) -> Seq<Seq<u8>>
    decreases k,
{
    if k <= 0 || k > classes.len() {
        Seq::empty()
    } else {
        objc_class_symbols(classes, k - 1) + seq![
            objc_class_prefix() + classes[k - 1],
            objc_metaclass_prefix() + classes[k - 1],
        ]
    }
}

/// Each Objective-C class gives two symbols, in this order: `_OBJC_CLASS_$_` followed by the class
/// name, then `_OBJC_METACLASS_$_` followed by the class name.
pub proof fn lemma_objc_class_symbols(classes: Seq<Seq<u8>>, k: int)
    requires
        0 <= k <= classes.len(),
    ensures
        objc_class_symbols(classes, k).len() == 2 * k,
        forall|i: int| 0 <= i < k ==> #[trigger] objc_class_symbols(classes, k)[2 * i]
            == seq![95u8, 79, 66, 74, 67, 95, 67, 76, 65, 83, 83, 95, 36, 95] + classes[i],
        forall|i: int| 0 <= i < k ==> #[trigger] objc_class_symbols(classes, k)[2 * i + 1]
            == seq![95u8, 79, 66, 74, 67, 95, 77, 69, 84, 65, 67, 76, 65, 83, 83, 95, 36, 95] + classes[i],
    decreases k,
{
    let class_prefix = seq![95u8, 79, 66, 74, 67, 95, 67, 76, 65, 83, 83, 95, 36, 95];
    let meta_prefix = seq![95u8, 79, 66, 74, 67, 95, 77, 69, 84, 65, 67, 76, 65, 83, 83, 95, 36, 95];
    assert(objc_class_prefix() =~= class_prefix);
    assert(objc_metaclass_prefix() =~= meta_prefix);
    if k > 0 {
        lemma_objc_class_symbols(classes, k - 1);
        let prev = objc_class_symbols(classes, k - 1);
        let pair = seq![class_prefix + classes[k - 1], meta_prefix + classes[k - 1]];
        assert(objc_class_symbols(classes, k) == prev + pair);
        assert forall|i: int| 0 <= i < k implies #[trigger] objc_class_symbols(classes, k)[2 * i]
            == class_prefix + classes[i] by {
            if i < k - 1 {
                assert(objc_class_symbols(classes, k)[2 * i] == prev[2 * i]);
            } else {
                assert(objc_class_symbols(classes, k)[2 * i] == pair[0]);
            }
        }
        assert forall|i: int| 0 <= i < k implies #[trigger] objc_class_symbols(classes, k)[2 * i + 1]
            == meta_prefix + classes[i] by {
            if i < k - 1 {
                assert(objc_class_symbols(classes, k)[2 * i + 1] == prev[2 * i + 1]);
            } else {
                assert(objc_class_symbols(classes, k)[2 * i + 1] == pair[1]);
            }
        }
    }
}

/// `prefix` followed by `name`.
fn concat_bytes(prefix: &[u8], name: &[u8]) -> (r: Vec<u8>)
    ensures
        r@ == prefix@ + name@,
{
    let mut out = vstd::slice::slice_to_vec(prefix);
    let mut i: usize = 0;
    while i < name.len()
        invariant
            0 <= i <= name@.len(),
            out@ == prefix@ + name@.take(i as int),
        decreases name@.len() - i,
    {
        out.push(name[i]);
        i = i + 1;
        assert(out@ =~= prefix@ + name@.take(i as int));
    }
    assert(name@.take(name@.len() as int) =~= name@);
    out
}

impl DefinedStubLibrary {
    /// The number of strong and weak symbols.
    pub fn total_symbols(&self) -> (r: usize)
        requires
            self.symbols@.len() + self.weak_symbols@.len() <= usize::MAX,
        ensures
            r == self.symbols@.len() + self.weak_symbols@.len(),
    {
        self.symbols.len() + self.weak_symbols.len()
    }

    /// Adds the `_OBJC_CLASS_$_` and `_OBJC_METACLASS_$_` symbols of every Objective-C class
    /// the library exports, which TAPI lists apart from ordinary symbols.
    pub fn materialize_objc_class_symbols(&mut self)
        ensures
            strings_view(final(self).symbols@) == strings_view(old(self).symbols@) + objc_class_symbols(
                strings_view(old(self).objc_classes@),
                old(self).objc_classes@.len() as int,
            ),
            final(self).objc_classes@ == old(self).objc_classes@,
            final(self).weak_symbols@ == old(self).weak_symbols@,
            final(self).install_name@ == old(self).install_name@,
    {
        let class_prefix: [u8; 14] = [95u8, 79, 66, 74, 67, 95, 67, 76, 65, 83, 83, 95, 36, 95];
        let meta_prefix: [u8; 18] = [95u8, 79, 66, 74, 67, 95, 77, 69, 84, 65, 67, 76, 65, 83, 83, 95, 36, 95];
        assert(class_prefix@ =~= objc_class_prefix());
        assert(meta_prefix@ =~= objc_metaclass_prefix());
        let ghost classes = strings_view(self.objc_classes@);
        let ghost start = strings_view(self.symbols@);
        let mut k: usize = 0;
        while k < self.objc_classes.len()
            invariant
                0 <= k <= self.objc_classes@.len(),
                classes == strings_view(self.objc_classes@),
                self.objc_classes@ == old(self).objc_classes@,
                self.weak_symbols@ == old(self).weak_symbols@,
                self.install_name@ == old(self).install_name@,
                start == strings_view(old(self).symbols@),
                class_prefix@ == objc_class_prefix(),
                meta_prefix@ == objc_metaclass_prefix(),
                strings_view(self.symbols@) == start + objc_class_symbols(classes, k as int),
            decreases self.objc_classes@.len() - k,
        {
            let class_symbol = concat_bytes(class_prefix.as_slice(), self.objc_classes[k].as_slice());
            let meta_symbol = concat_bytes(meta_prefix.as_slice(), self.objc_classes[k].as_slice());
            let ghost before = self.symbols@;
            self.symbols.push(class_symbol);
            self.symbols.push(meta_symbol);
            proof {
                assert(classes[k as int] == self.objc_classes@[k as int]@);
                assert(strings_view(self.symbols@) =~= strings_view(before).push(class_symbol@).push(meta_symbol@));
                assert(start + objc_class_symbols(classes, k + 1) =~= (start + objc_class_symbols(classes, k as int)).push(class_symbol@).push(meta_symbol@));
            }
            k = k + 1;
        }
    }
}

/// Whether the loader's `answers` to the walk from `w` over `defs`, each one that text it may
/// have returned for the install name the walk requested gives, lead the walk to what `r` says.
pub open spec fn resolved_with_text<F: Fn(&[u8]) -> Option<Vec<u8>>>(
    load: F,
    defs: Seq<DefinitionView>,
    w: WalkView,
    answers: Seq<LoadAnswer>,
    r: Result<DefinedStubLibrary, StubError>,
) -> bool {
    let (outcome, names) = spec_walk_with(w, answers);
    &&& outcome is Some
    &&& names.len() == answers.len()
    &&& forall|k: int| 0 <= k < answers.len() ==> loaded_text(load, names[k], #[trigger] answers[k])
    &&& outcome_matches(r, defs, outcome->Some_0)
}

/// Resolves a stub from the text of a TBD file in the regular spelling. A reexport that is not
/// a document of the file is looked up in the TBD file whose text `load_external_reexport`
/// returns for its install name; that file's documents join the walk.
#[verifier::spinoff_prover]
#[verifier::rlimit(100)]
pub fn parse_defined_library_with_external_reexports<F: Fn(&[u8]) -> Option<Vec<u8>>>(
    input: &[u8],
    load_external_reexport: F,
) -> (r: Result<DefinedStubLibrary, StubError>)
    requires
        forall|name: &[u8]| load_external_reexport.requires((name,)),
    ensures
        match crate::tapi::spec_parse_standard_tapi_v4(input@) {
            None => r == Err::<DefinedStubLibrary, StubError>(StubError::NotStandardSpelling),
            Some(defs) => match spec_start(defs) {
                Err(e) => r == Err::<DefinedStubLibrary, StubError>(e),
                Ok(w) => exists|answers: Seq<LoadAnswer>|
                    #[trigger] resolved_with_text(load_external_reexport, defs, w, answers, r),
            },
        },
{
    let definitions = match parse_library_definitions(input) {
        Some(d) => d,
        None => {
            return Err(StubError::NotStandardSpelling);
        },
    };
    let ghost initial = views_of(definitions@);
    let mut walk = match StubResolver::new(definitions) {
        Ok(w) => w,
        Err(e) => {
            return Err(e);
        },
    };
    let ghost start = walk.walk_view();
    let ghost mut answers: Seq<LoadAnswer> = Seq::empty();
    let ghost mut names: Seq<Seq<u8>> = Seq::empty();
    proof {
        assert forall|f: Seq<LoadAnswer>| #[trigger] spec_walk_with(start, answers + f)
            == (spec_walk_with(walk.walk_view(), f).0, names + spec_walk_with(walk.walk_view(), f).1) by {
            assert(answers + f =~= f);
            assert(names + spec_walk_with(walk.walk_view(), f).1 =~= spec_walk_with(walk.walk_view(), f).1);
        }
    }
    loop
        invariant
            walk.wf(),
            initial.len() >= 1,
            crate::tapi::spec_parse_standard_tapi_v4(input@) == Some(initial),
            spec_start(initial) == Ok::<WalkView, StubError>(start),
            forall|name: &[u8]| load_external_reexport.requires((name,)),
            names.len() == answers.len(),
            forall|k: int| 0 <= k < answers.len() ==> loaded_text(load_external_reexport, names[k], #[trigger] answers[k]),
            forall|f: Seq<LoadAnswer>| #[trigger] spec_walk_with(start, answers + f)
                == (spec_walk_with(walk.walk_view(), f).0, names + spec_walk_with(walk.walk_view(), f).1),
            walk.library.install_name@ == initial[0].install_name,
            spec_tbd_versions(initial[0].current_version, initial[0].compatibility_version) == Ok::<DylibVersions, VersionError>(walk.library.versions),
        decreases usize::MAX - walk.definitions@.len(),
    {
        let ghost wc = walk.walk_view();
        proof {
            lemma_wf_walk_ok(walk);
        }
        let ran = walk.run();
        let name = match ran {
            Ok(None) => {
                let lib = walk.finish();
                proof {
                    lemma_walk_with_end(wc);
                    assert(answers + Seq::<LoadAnswer>::empty() =~= answers);
                    assert(names + Seq::<Seq<u8>>::empty() =~= names);
                    assert(spec_walk_with(start, answers + Seq::<LoadAnswer>::empty()) == spec_walk_with(start, answers));
                    assert(library_matches(Ok::<DefinedStubLibrary, StubError>(lib), initial, walk.walk_view()));
                    assert(resolved_with_text(load_external_reexport, crate::tapi::spec_parse_standard_tapi_v4(input@)->Some_0, spec_start(crate::tapi::spec_parse_standard_tapi_v4(input@)->Some_0)->Ok_0, answers, Ok::<DefinedStubLibrary, StubError>(lib)));
                }
                return Ok(lib);
            },
            Ok(Some(name)) => name,
            Err(e) => {
                proof {
                    lemma_walk_with_end(wc);
                    assert(answers + Seq::<LoadAnswer>::empty() =~= answers);
                    assert(names + Seq::<Seq<u8>>::empty() =~= names);
                    assert(spec_walk_with(start, answers + Seq::<LoadAnswer>::empty()) == spec_walk_with(start, answers));
                    assert(resolved_with_text(load_external_reexport, crate::tapi::spec_parse_standard_tapi_v4(input@)->Some_0, spec_start(crate::tapi::spec_parse_standard_tapi_v4(input@)->Some_0)->Ok_0, answers, Err::<DefinedStubLibrary, StubError>(e)));
                }
                return Err(e);
            },
        };
        let out = load_external_reexport(name.as_slice());
        let ghost a = text_answer(out);
        let ghost old_answers = answers;
        let ghost old_names = names;
        proof {
            assert(loaded_text(load_external_reexport, name@, a));
            answers = answers.push(a);
            names = names.push(name@);
            assert(answers =~= old_answers + seq![a]);
            assert(names =~= old_names + seq![name@]);
            lemma_walk_with_answer(wc, a, Seq::empty());
            assert(seq![a] + Seq::<LoadAnswer>::empty() =~= seq![a]);
            assert(spec_walk_with(start, old_answers + seq![a]) == (spec_walk_with(wc, seq![a]).0, old_names + spec_walk_with(wc, seq![a]).1));
            assert forall|k: int| 0 <= k < answers.len() implies loaded_text(load_external_reexport, names[k], #[trigger] answers[k]) by {
                if k < old_answers.len() {
                    assert(answers[k] == old_answers[k]);
                    assert(names[k] == old_names[k]);
                }
            }
        }
        let text = match out {
            Some(text) => text,
            None => {
                proof {
                    assert(resolved_with_text(load_external_reexport, crate::tapi::spec_parse_standard_tapi_v4(input@)->Some_0, spec_start(crate::tapi::spec_parse_standard_tapi_v4(input@)->Some_0)->Ok_0, answers, Err::<DefinedStubLibrary, StubError>(StubError::ExternalLoadFailed)));
                }
                return Err(StubError::ExternalLoadFailed);
            },
        };
        let external = match parse_library_definitions(text.as_slice()) {
            Some(defs) => defs,
            None => {
                proof {
                    assert(resolved_with_text(load_external_reexport, crate::tapi::spec_parse_standard_tapi_v4(input@)->Some_0, spec_start(crate::tapi::spec_parse_standard_tapi_v4(input@)->Some_0)->Ok_0, answers, Err::<DefinedStubLibrary, StubError>(StubError::NotStandardSpelling)));
                }
                return Err(StubError::NotStandardSpelling);
            },
        };
        proof {
            lemma_wf_walk_ok(walk);
        }
        let ghost wn = walk.walk_view();
        if external.len() == 0 {
            proof {
                assert(views_of(external@).len() == 0);
                assert(find_name(views_of(external@), wn.reexports[wn.next], 0) is None);
                assert(resolved_with_text(load_external_reexport, crate::tapi::spec_parse_standard_tapi_v4(input@)->Some_0, spec_start(crate::tapi::spec_parse_standard_tapi_v4(input@)->Some_0)->Ok_0, answers, Err::<DefinedStubLibrary, StubError>(StubError::ExternalNotDefined)));
            }
            return Err(StubError::ExternalNotDefined);
        }
        match walk.provide_external(external) {
            Ok(()) => {},
            Err(e) => {
                proof {
                    assert(resolved_with_text(load_external_reexport, crate::tapi::spec_parse_standard_tapi_v4(input@)->Some_0, spec_start(crate::tapi::spec_parse_standard_tapi_v4(input@)->Some_0)->Ok_0, answers, Err::<DefinedStubLibrary, StubError>(e)));
                }
                return Err(e);
            },
        }
        let _n = walk.definitions.len();
        proof {
            assert forall|f: Seq<LoadAnswer>| #[trigger] spec_walk_with(start, answers + f)
                == (spec_walk_with(walk.walk_view(), f).0, names + spec_walk_with(walk.walk_view(), f).1) by {
                let g = seq![a] + f;
                assert(answers + f =~= old_answers + g);
                lemma_walk_with_answer(wc, a, f);
                assert(spec_walk_with(start, old_answers + g) == (spec_walk_with(wc, g).0, old_names + spec_walk_with(wc, g).1));
                assert(names + spec_walk_with(walk.walk_view(), f).1 =~= old_names + (seq![name@] + spec_walk_with(walk.walk_view(), f).1));
            }
        }
    }
}

} // verus!
