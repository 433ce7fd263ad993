//! The search for the generated file of a topology in a build cache.

use crate::files::{Answer, DirEntry, Request};
use crate::locations::{map_source_to_build, parse_fprime_locations};
use crate::path;
use crate::phases::GeneratedFile;
use crate::text::{self, same_text};
use crate::{files, locations};
use vstd::prelude::*;

verus! {

/// Name of the file in a build cache that lists `(source dir, build dir)` pairs, one path
/// per line.
pub const FPRIME_LOCATIONS_FILE: &'static str = "fprime-locations.fprime-util";

/// How many directories below the build cache a scan goes down.
pub const MAX_SCAN_DEPTH: usize = 12;

/// Whether a directory of this name is left out of a scan of the build cache.
pub open spec fn is_skipped_dir(name: Seq<char>) -> bool {
    name == "CMakeFiles"@ || name == "lib"@ || name == "bin"@
}

/// Name of the generated file of a topology.
pub open spec fn generated_name(top_name: Seq<char>, file: GeneratedFile) -> Seq<char> {
    top_name + "TopologyAc."@ + file.extension_text()
}

/// Whether the entries hold something of this name that is no directory.
pub open spec fn has_file(list: Seq<files::Entry>, name: Seq<char>) -> bool {
    exists|k: int| 0 <= k < list.len() && !(#[trigger] list[k]).is_dir && list[k].name == name
}

/// The paths of those of the first `n` entries of `dir` that are directories to scan.
pub open spec fn subdirs(dir: Seq<char>, list: Seq<files::Entry>, n: int) -> Seq<Seq<char>>
    decreases n,
{
    if n <= 0 {
        Seq::empty()
    } else if list[n - 1].is_dir && !is_skipped_dir(list[n - 1].name) {
        subdirs(dir, list, n - 1).push(path::joined(dir, list[n - 1].name))
    } else {
        subdirs(dir, list, n - 1)
    }
}

/// The directories to scan below `dir`.
pub open spec fn dirs_below(fs: files::FileSystem, dir: Seq<char>) -> Seq<Seq<char>> {
    subdirs(dir, fs.dirs[dir], fs.dirs[dir].len() as int)
}

/// The path of a file of this name in `dir` or below it: in `dir` itself first, and then
/// in each of its directories in turn. `depth` tells how far down `dir` is.
pub open spec fn find_named(
    fs: files::FileSystem,
    dir: Seq<char>,
    name: Seq<char>,
    depth: int,
) -> Option<Seq<char>>
    decreases MAX_SCAN_DEPTH + 1 - depth, 0nat,
{
    if depth > MAX_SCAN_DEPTH || !fs.dirs.contains_key(dir) {
        None
    } else if has_file(fs.dirs[dir], name) {
        Some(path::joined(dir, name))
    } else {
        find_below(fs, dirs_below(fs, dir), name, depth + 1)
    }
}

/// The path of a file of this name in one of `dirs` or below it, the first one first.
pub open spec fn find_below(
    fs: files::FileSystem,
    dirs: Seq<Seq<char>>,
    name: Seq<char>,
    depth: int,
) -> Option<Seq<char>>
    decreases MAX_SCAN_DEPTH + 1 - depth, dirs.len(),
{
    if dirs.len() == 0 {
        None
    } else {
        match find_named(fs, dirs[0], name, depth) {
            Some(found) => Some(found),
            None => find_below(fs, dirs.drop_first(), name, depth),
        }
    }
}

/// Where the generated file lies if the locations file of the build cache is right.
pub open spec fn mapped_candidate(
    fs: files::FileSystem,
    build_cache: Seq<char>,
    topology_dir: Option<Seq<char>>,
    name: Seq<char>,
) -> Option<Seq<char>> {
    match (topology_dir, fs.text(path::joined(build_cache, FPRIME_LOCATIONS_FILE@))) {
        (Some(dir), Some(contents)) => match locations::mapped(
            locations::location_pairs(contents),
            dir,
        ) {
            Some(build_dir) => Some(path::joined(build_dir, name)),
            None => None,
        },
        _ => None,
    }
}

/// The generated file of a topology: the one that the locations file points at, if it
/// exists, and else one of that name anywhere in the build cache.
pub open spec fn generated_file(
    fs: files::FileSystem,
    build_cache: Seq<char>,
    topology_dir: Option<Seq<char>>,
    top_name: Seq<char>,
    file: GeneratedFile,
) -> Option<Seq<char>> {
    let name = generated_name(top_name, file);
    match mapped_candidate(fs, build_cache, topology_dir, name) {
        Some(candidate) => if fs.files.contains(candidate) {
            Some(candidate)
        } else {
            find_named(fs, build_cache, name, 0)
        },
        None => find_named(fs, build_cache, name, 0),
    }
}

/// Whether a scan of `root` comes to `dir`, `n` directories down: through directories that
/// can be read, and none that is left out.
pub open spec fn is_scanned(
    fs: files::FileSystem,
    root: Seq<char>,
    dir: Seq<char>,
    n: nat,
) -> bool
    decreases n,
{
    if n == 0 {
        dir == root
    } else {
        &&& fs.dirs.contains_key(root)
        &&& exists|k: int|
            0 <= k < dirs_below(fs, root).len() && is_scanned(
                fs,
                #[trigger] dirs_below(fs, root)[k],
                dir,
                (n - 1) as nat,
            )
    }
}

/// Whether a scan of `root`, itself `depth` directories down, comes to `dir` `n`
/// directories further down, not too deep, and finds a file of this name there.
pub open spec fn holds_scanned(
    fs: files::FileSystem,
    root: Seq<char>,
    name: Seq<char>,
    depth: int,
    dir: Seq<char>,
    n: nat,
) -> bool {
    &&& is_scanned(fs, root, dir, n)
    &&& depth + n <= MAX_SCAN_DEPTH
    &&& fs.dirs.contains_key(dir)
    &&& has_file(fs.dirs[dir], name)
}

/// A scan finds a file of the name if and only if one lies in a directory that it comes to,
/// no more than the greatest depth down; what it finds is the path of such a file.
pub proof fn law_scan_finds_what_it_comes_to(
    fs: files::FileSystem,
    root: Seq<char>,
    name: Seq<char>,
    depth: int,
)
    ensures
        find_named(fs, root, name, depth) is Some <==> exists|dir: Seq<char>, n: nat| #[trigger]
            holds_scanned(fs, root, name, depth, dir, n),
        find_named(fs, root, name, depth) matches Some(found) ==> exists|dir: Seq<char>, n: nat|
            #[trigger] holds_scanned(fs, root, name, depth, dir, n) && found == path::joined(
                dir,
                name,
            ),
    decreases MAX_SCAN_DEPTH + 1 - depth, 0nat,
{
    if depth <= MAX_SCAN_DEPTH && fs.dirs.contains_key(root) {
        let below = dirs_below(fs, root);
        if has_file(fs.dirs[root], name) {
            assert(holds_scanned(fs, root, name, depth, root, 0));
        } else {
            lemma_finds_below(fs, below, name, depth + 1);
            if let Some(found) = find_below(fs, below, name, depth + 1) {
                let (k, dir, n) = choose|k: int, dir: Seq<char>, n: nat|
                    0 <= k < below.len() && #[trigger] holds_scanned(
                        fs,
                        below[k],
                        name,
                        depth + 1,
                        dir,
                        n,
                    ) && found == path::joined(dir, name);
                assert(is_scanned(fs, dirs_below(fs, root)[k], dir, (n + 1 - 1) as nat));
                assert(holds_scanned(fs, root, name, depth, dir, n + 1));
            }
            assert forall|dir: Seq<char>, n: nat| #[trigger]
                holds_scanned(fs, root, name, depth, dir, n) implies find_below(
                fs,
                below,
                name,
                depth + 1,
            ) is Some by {
                let k = choose|k: int|
                    0 <= k < below.len() && is_scanned(
                        fs,
                        #[trigger] below[k],
                        dir,
                        (n - 1) as nat,
                    );
                assert(holds_scanned(fs, below[k], name, depth + 1, dir, (n - 1) as nat));
            }
        }
    } else {
        assert forall|dir: Seq<char>, n: nat| !#[trigger]
            holds_scanned(fs, root, name, depth, dir, n) by {}
    }
}

proof fn lemma_finds_below(
    fs: files::FileSystem,
    dirs: Seq<Seq<char>>,
    name: Seq<char>,
    depth: int,
)
    ensures
        match find_below(fs, dirs, name, depth) {
            Some(found) => exists|k: int, dir: Seq<char>, n: nat|
                0 <= k < dirs.len() && #[trigger] holds_scanned(fs, dirs[k], name, depth, dir, n)
                    && found == path::joined(dir, name),
            None => forall|k: int, dir: Seq<char>, n: nat|
                0 <= k < dirs.len() ==> !#[trigger] holds_scanned(
                    fs,
                    dirs[k],
                    name,
                    depth,
                    dir,
                    n,
                ),
        },
    decreases MAX_SCAN_DEPTH + 1 - depth, dirs.len(),
{
    if dirs.len() > 0 {
        let rest = dirs.drop_first();
        if depth <= MAX_SCAN_DEPTH {
            law_scan_finds_what_it_comes_to(fs, dirs[0], name, depth);
        }
        match find_named(fs, dirs[0], name, depth) {
            Some(found) => {
                let (dir, n) = choose|dir: Seq<char>, n: nat| #[trigger]
                    holds_scanned(fs, dirs[0], name, depth, dir, n) && found == path::joined(
                        dir,
                        name,
                    );
                assert(holds_scanned(fs, dirs[0], name, depth, dir, n));
            },
            None => {
                lemma_finds_below(fs, rest, name, depth);
                match find_below(fs, rest, name, depth) {
                    Some(found) => {
                        let (k, dir, n) = choose|k: int, dir: Seq<char>, n: nat|
                            0 <= k < rest.len() && #[trigger] holds_scanned(
                                fs,
                                rest[k],
                                name,
                                depth,
                                dir,
                                n,
                            ) && found == path::joined(dir, name);
                        assert(rest[k] == dirs[k + 1]);
                        assert(holds_scanned(fs, dirs[k + 1], name, depth, dir, n));
                    },
                    None => {
                        assert forall|k: int, dir: Seq<char>, n: nat|
                            0 <= k < dirs.len() implies !#[trigger] holds_scanned(
                            fs,
                            dirs[k],
                            name,
                            depth,
                            dir,
                            n,
                        ) by {
                            if k > 0 {
                                assert(rest[k - 1] == dirs[k]);
                                assert(!holds_scanned(fs, rest[k - 1], name, depth, dir, n));
                            }
                        }
                    },
                }
            },
        }
    }
}

/// The directories to scan are those among the first entries, but for the ones left out.
proof fn lemma_subdirs_are_filtered(dir: Seq<char>, list: Seq<files::Entry>, n: int)
    requires
        0 <= n <= list.len(),
    ensures
        subdirs(dir, list, n) == list.take(n).filter_map(
            |e: files::Entry|
                if e.is_dir && e.name != "CMakeFiles"@ && e.name != "lib"@ && e.name != "bin"@ {
                    Some(path::joined(dir, e.name))
                } else {
                    None
                },
        ),
    decreases n,
{
    let part = list.take(n);
    let keep = |e: files::Entry|
        if e.is_dir && e.name != "CMakeFiles"@ && e.name != "lib"@ && e.name != "bin"@ {
            Some(path::joined(dir, e.name))
        } else {
            None
        };
    if n > 0 {
        lemma_subdirs_are_filtered(dir, list, n - 1);
        assert(part.drop_last() =~= list.take(n - 1));
        assert(part.last() == list[n - 1]);
        let before = subdirs(dir, list, n - 1);
        let below = path::joined(dir, list[n - 1].name);
        assert(before.push(below) =~= before + seq![below]);
        assert(part.filter_map(keep) == (match keep(part.last()) {
            Some(x) => part.drop_last().filter_map(keep) + seq![x],
            None => part.drop_last().filter_map(keep),
        }));
    } else {
        assert(part.filter_map(keep) =~= Seq::empty());
    }
}

/// Below a directory all its directories are scanned, in the order in which they are listed,
/// save those named `CMakeFiles`, `lib` or `bin`.
pub proof fn law_all_but_three_names_are_scanned(fs: files::FileSystem, dir: Seq<char>)
    ensures
        dirs_below(fs, dir) == fs.dirs[dir].filter_map(
            |e: files::Entry|
                if e.is_dir && e.name != "CMakeFiles"@ && e.name != "lib"@ && e.name != "bin"@ {
                    Some(path::joined(dir, e.name))
                } else {
                    None
                },
        ),
{
    let list = fs.dirs[dir];
    lemma_subdirs_are_filtered(dir, list, list.len() as int);
    assert(list.take(list.len() as int) =~= list);
}

/// A scan takes a file of the name in the directory itself before any below it. Otherwise it
/// gives what the first of the directories below has, as far down as twelve, and a directory
/// that cannot be read has nothing.
pub proof fn law_scan_goes_down_in_order(
    fs: files::FileSystem,
    dir: Seq<char>,
    name: Seq<char>,
    depth: int,
    k: int,
)
    ensures
        ({
            let found = find_named(fs, dir, name, depth);
            let below = fs.dirs[dir].filter_map(
                |e: files::Entry|
                if e.is_dir && e.name != "CMakeFiles"@ && e.name != "lib"@ && e.name != "bin"@ {
                    Some(path::joined(dir, e.name))
                } else {
                    None
                },
        );
            let is_here = exists|i: int|
                0 <= i < fs.dirs[dir].len() && (#[trigger] fs.dirs[dir][i]).name == name
                    && !fs.dirs[dir][i].is_dir;
            let is_read = depth <= 12 && fs.dirs.contains_key(dir);
            &&& !is_read ==> found is None
            &&& is_read && is_here ==> found == Some(path::joined(dir, name))
            &&& is_read && !is_here && 0 <= k < below.len() && (forall|j: int|
                0 <= j < k ==> find_named(fs, #[trigger] below[j], name, depth + 1) is None)
                && find_named(fs, below[k], name, depth + 1) is Some ==> found == find_named(
                fs,
                below[k],
                name,
                depth + 1,
            )
            &&& is_read && !is_here && (forall|j: int|
                0 <= j < below.len() ==> find_named(fs, #[trigger] below[j], name, depth + 1)
                    is None) ==> found is None
        }),
{
    law_all_but_three_names_are_scanned(fs, dir);
    let below = dirs_below(fs, dir);
    if depth <= MAX_SCAN_DEPTH && fs.dirs.contains_key(dir) {
        let list = fs.dirs[dir];
        if exists|i: int|
            0 <= i < list.len() && (#[trigger] list[i]).name == name && !list[i].is_dir {
            let i = choose|i: int|
                0 <= i < list.len() && (#[trigger] list[i]).name == name && !list[i].is_dir;
            assert(!list[i].is_dir);
            assert(has_file(list, name));
        } else {
            assert(!has_file(list, name));
            if 0 <= k < below.len() && (forall|j: int|
                0 <= j < k ==> find_named(fs, #[trigger] below[j], name, depth + 1) is None)
                && find_named(fs, below[k], name, depth + 1) is Some {
                lemma_find_below_takes_the_first(fs, below, name, depth + 1, k);
            }
            if forall|j: int|
                0 <= j < below.len() ==> find_named(fs, #[trigger] below[j], name, depth + 1)
                    is None {
                lemma_find_below_takes_the_first(
                    fs,
                    below,
                    name,
                    depth + 1,
                    below.len() as int,
                );
            }
        }
    }
}

proof fn lemma_find_below_takes_the_first(
    fs: files::FileSystem,
    dirs: Seq<Seq<char>>,
    name: Seq<char>,
    depth: int,
    k: int,
)
    requires
        0 <= k <= dirs.len(),
        forall|j: int| 0 <= j < k ==> find_named(fs, #[trigger] dirs[j], name, depth) is None,
        k < dirs.len() ==> find_named(fs, dirs[k], name, depth) is Some,
    ensures
        find_below(fs, dirs, name, depth) == (if k < dirs.len() {
            find_named(fs, dirs[k], name, depth)
        } else {
            None
        }),
    decreases k,
{
    if k > 0 {
        let rest = dirs.drop_first();
        assert(find_named(fs, dirs[0], name, depth) is None);
        assert forall|j: int| 0 <= j < k - 1 implies find_named(
            fs,
            #[trigger] rest[j],
            name,
            depth,
        ) is None by {
            assert(rest[j] == dirs[j + 1]);
        }
        lemma_find_below_takes_the_first(fs, rest, name, depth, k - 1);
    }
}

/// The generated file is `<Top>TopologyAc.<ext>` in the directory that the pairs of the locations
/// file `fprime-locations.fprime-util` map the topology's directory to, where there is such a
/// file; otherwise it is what a scan of the whole build cache finds under that name.
pub proof fn law_generated_file_lies_where_the_pairs_say(
    fs: files::FileSystem,
    build_cache: Seq<char>,
    topology_dir: Option<Seq<char>>,
    top_name: Seq<char>,
    file: GeneratedFile,
)
    ensures
        ({
            let name = top_name + "TopologyAc."@ + (match file {
                GeneratedFile::Hpp => "hpp"@,
                GeneratedFile::Cpp => "cpp"@,
            });
            let locs = path::joined(build_cache, "fprime-locations.fprime-util"@);
            let scanned = find_named(fs, build_cache, name, 0);
            generated_file(fs, build_cache, topology_dir, top_name, file) == (match topology_dir {
                Some(dir) => if fs.texts.contains_key(locs) {
                    match locations::mapped(locations::location_pairs(fs.texts[locs]), dir) {
                        Some(build_dir) => if fs.files.contains(path::joined(build_dir, name)) {
                            Some(path::joined(build_dir, name))
                        } else {
                            scanned
                        },
                        None => scanned,
                    }
                } else {
                    scanned
                },
                None => scanned,
            })
        }),
{
}

/// The generated file of a topology is named after it, however it is found.
pub proof fn law_generated_file_is_named_after_its_topology(
    fs: files::FileSystem,
    build_cache: Seq<char>,
    topology_dir: Option<Seq<char>>,
    top_name: Seq<char>,
    file: GeneratedFile,
)
    requires
        !top_name.contains('/'),
    ensures
        generated_file(fs, build_cache, topology_dir, top_name, file) matches Some(found)
            ==> path::name_of(found) == Some(generated_name(top_name, file)),
{
    let name = generated_name(top_name, file);
    reveal_strlit("TopologyAc.");
    reveal_strlit("hpp");
    reveal_strlit("cpp");
    reveal_strlit(".");
    reveal_strlit("..");
    assert(!name.contains('/')) by {
        if name.contains('/') {
            let i = choose|i: int| 0 <= i < name.len() && name[i] == '/';
            if i < top_name.len() {
                assert(top_name[i] == '/');
            }
        }
    }
    assert(name.len() > 2);
    assert(path::is_name(name));
    match mapped_candidate(fs, build_cache, topology_dir, name) {
        Some(candidate) if fs.files.contains(candidate) => {
            let contents = fs.text(path::joined(build_cache, FPRIME_LOCATIONS_FILE@))->0;
            let build_dir = locations::mapped(
                locations::location_pairs(contents),
                topology_dir->0,
            )->0;
            path::law_joined_name(build_dir, name);
        },
        _ => {
            law_scan_finds_what_it_comes_to(fs, build_cache, name, 0);
            if let Some(found) = find_named(fs, build_cache, name, 0) {
                let (dir, n) = choose|dir: Seq<char>, n: nat| #[trigger]
                    holds_scanned(fs, build_cache, name, 0, dir, n) && found == path::joined(
                        dir,
                        name,
                    );
                path::law_joined_name(dir, name);
            }
        },
    }
}

/// The file that the locations file of the build cache points at is taken where it exists;
/// a scan is made only where it does not.
pub proof fn law_mapped_file_comes_first(
    fs: files::FileSystem,
    build_cache: Seq<char>,
    topology_dir: Option<Seq<char>>,
    top_name: Seq<char>,
    file: GeneratedFile,
)
    ensures
        ({
            let name = generated_name(top_name, file);
            let found = generated_file(fs, build_cache, topology_dir, top_name, file);
            match mapped_candidate(fs, build_cache, topology_dir, name) {
                Some(candidate) if fs.files.contains(candidate) => found == Some(candidate),
                _ => found == find_named(fs, build_cache, name, 0),
            }
        }),
{
}

/// Number of directories that a scan of `dir` reads at most.
spec fn dir_count(fs: files::FileSystem, dir: Seq<char>, depth: int) -> nat
    decreases MAX_SCAN_DEPTH + 1 - depth, 0nat,
{
    if depth > MAX_SCAN_DEPTH || !fs.dirs.contains_key(dir) {
        1
    } else {
        1 + below_count(fs, dirs_below(fs, dir), depth + 1)
    }
}

/// Number of directories that a scan of `dirs` reads at most.
spec fn below_count(fs: files::FileSystem, dirs: Seq<Seq<char>>, depth: int) -> nat
    decreases MAX_SCAN_DEPTH + 1 - depth, dirs.len(),
{
    if dirs.len() == 0 {
        0
    } else {
        dir_count(fs, dirs[0], depth) + below_count(fs, dirs.drop_first(), depth)
    }
}

/// Number of answers that a search in the build cache needs at most.
pub closed spec fn search_steps(fs: files::FileSystem, build_cache: Seq<char>) -> nat {
    2 + dir_count(fs, build_cache, 0)
}

/// A directory that is still to be scanned.
struct PendingDir {
    path: String,
    depth: usize,
}

/// Where a search stands.
enum Stage {
    /// Waiting for the text of the locations file, to map this source directory.
    Locations(String),
    /// Waiting to hear whether this path is a file.
    Probe(String),
    /// Waiting for the entries of the last of these directories.
    Scan(Vec<PendingDir>),
    /// Done, with the path that was found.
    Done(Option<String>),
}

/// A search for the generated file of a topology.
pub struct FileSearch {
    build_cache: String,
    file_name: String,
    stage: Stage,
}

/// What a scan of the pending directories finds, the last one first.
spec fn find_pending(
    fs: files::FileSystem,
    pending: Seq<PendingDir>,
    name: Seq<char>,
) -> Option<Seq<char>>
    decreases pending.len(),
{
    if pending.len() == 0 {
        None
    } else {
        match find_named(fs, pending.last().path@, name, pending.last().depth as int) {
            Some(found) => Some(found),
            None => find_pending(fs, pending.drop_last(), name),
        }
    }
}

/// Number of directories that a scan of the pending directories reads at most.
spec fn pending_count(fs: files::FileSystem, pending: Seq<PendingDir>) -> nat
    decreases pending.len(),
{
    if pending.len() == 0 {
        0
    } else {
        dir_count(fs, pending.last().path@, pending.last().depth as int) + pending_count(
            fs,
            pending.drop_last(),
        )
    }
}

impl FileSearch {
    #[verifier::type_invariant]
    spec fn wf(self) -> bool {
        self.stage matches Stage::Scan(pending) ==> {
            &&& pending@.len() > 0
            &&& forall|k: int|
                0 <= k < pending@.len() ==> (#[trigger] pending@[k]).depth <= MAX_SCAN_DEPTH
        }
    }

    /// What the search wants to know next; nothing once it is done.
    pub closed spec fn question(self) -> Option<files::Question> {
        match self.stage {
            Stage::Locations(_) => Some(
                files::Question::ReadText(
                    path::joined(self.build_cache@, FPRIME_LOCATIONS_FILE@),
                ),
            ),
            Stage::Probe(candidate) => Some(files::Question::IsFile(candidate@)),
            Stage::Scan(pending) => Some(files::Question::ListDir(pending@.last().path@)),
            Stage::Done(_) => None,
        }
    }

    /// What the search finds in the file system.
    pub closed spec fn outcome(self, fs: files::FileSystem) -> Option<Seq<char>> {
        let scanned = find_named(fs, self.build_cache@, self.file_name@, 0);
        match self.stage {
            Stage::Locations(dir) => match mapped_candidate(
                fs,
                self.build_cache@,
                Some(dir@),
                self.file_name@,
            ) {
                Some(candidate) => if fs.files.contains(candidate) {
                    Some(candidate)
                } else {
                    scanned
                },
                None => scanned,
            },
            Stage::Probe(candidate) => if fs.files.contains(candidate@) {
                Some(candidate@)
            } else {
                scanned
            },
            Stage::Scan(pending) => find_pending(fs, pending@, self.file_name@),
            Stage::Done(found) => text::optional(found),
        }
    }

    /// Number of answers that the search still needs at most.
    pub closed spec fn steps(self, fs: files::FileSystem) -> nat {
        let scan = dir_count(fs, self.build_cache@, 0);
        match self.stage {
            Stage::Locations(_) => 2 + scan,
            Stage::Probe(_) => 1 + scan,
            Stage::Scan(pending) => pending_count(fs, pending@),
            Stage::Done(_) => 0,
        }
    }

    /// Whether the search needs no further answer.
    pub fn is_done(&self) -> (r: bool)
        ensures
            r == (self.question() is None),
    {
        matches!(self.stage, Stage::Done(_))
    }

    /// What the search wants to know next; nothing once it is done.
    pub fn request(&self) -> (r: Option<Request>)
        ensures
            r is Some <==> self.question() is Some,
            r matches Some(request) ==> self.question() == Some(request@),
    {
        proof {
            use_type_invariant(self);
        }
        match &self.stage {
            Stage::Locations(_) => Some(
                Request::ReadText(path::join(self.build_cache.as_str(), FPRIME_LOCATIONS_FILE)),
            ),
            Stage::Probe(candidate) => Some(Request::IsFile(candidate.clone())),
            Stage::Scan(pending) => Some(
                Request::ListDir(pending[pending.len() - 1].path.clone()),
            ),
            Stage::Done(_) => None,
        }
    }

    /// What the search found, once it is done.
    pub fn found(self) -> (r: Option<String>)
        requires
            self.question() is None,
        ensures
            forall|fs: files::FileSystem| #[trigger] self.outcome(fs) == text::optional(r),
    {
        match self.stage {
            Stage::Done(found) => found,
            _ => None,
        }
    }

    /// The state in which the whole build cache is to be scanned.
    fn find_file_named(build_cache: String, file_name: String) -> (r: FileSearch)
        ensures
            r.question() is Some,
            forall|fs: files::FileSystem| #[trigger]
                r.outcome(fs) == find_named(fs, build_cache@, file_name@, 0),
            forall|fs: files::FileSystem| #[trigger]
                r.steps(fs) == dir_count(fs, build_cache@, 0),
    {
        let mut pending: Vec<PendingDir> = Vec::new();
        pending.push(PendingDir { path: build_cache.clone(), depth: 0 });
        let r: FileSearch = FileSearch { build_cache, file_name, stage: Stage::Scan(pending) };
        proof {
            assert(pending@.drop_last() =~= Seq::empty());
            reveal_with_fuel(find_pending, 2);
            reveal_with_fuel(pending_count, 2);
        }
        r
    }
}

/// The pending directories with `dirs` on top, the first one last.
spec fn pushed(pending: Seq<PendingDir>, dirs: Seq<PendingDir>) -> Seq<PendingDir> {
    pending + dirs.reverse()
}

/// The pending directories for the given paths.
spec fn are_at(dirs: Seq<PendingDir>, paths: Seq<Seq<char>>, depth: int) -> bool {
    &&& dirs.len() == paths.len()
    &&& forall|k: int|
        0 <= k < dirs.len() ==> (#[trigger] dirs[k]).path@ == paths[k] && dirs[k].depth == depth
}

/// A scan with `dirs` on top looks into them first, in their order.
proof fn lemma_find_pushed(
    fs: files::FileSystem,
    pending: Seq<PendingDir>,
    dirs: Seq<PendingDir>,
    paths: Seq<Seq<char>>,
    name: Seq<char>,
    depth: int,
)
    requires
        are_at(dirs, paths, depth),
    ensures
        find_pending(fs, pushed(pending, dirs), name) == (match find_below(
            fs,
            paths,
            name,
            depth,
        ) {
            Some(found) => Some(found),
            None => find_pending(fs, pending, name),
        }),
        pending_count(fs, pushed(pending, dirs)) == below_count(fs, paths, depth) + pending_count(
            fs,
            pending,
        ),
    decreases dirs.len(),
{
    if dirs.len() == 0 {
        assert(pushed(pending, dirs) =~= pending);
    } else {
        let rest = dirs.drop_first();
        assert forall|k: int| 0 <= k < rest.len() implies (#[trigger] rest[k]).path@
            == paths.drop_first()[k] && rest[k].depth == depth by {
            assert(rest[k] == dirs[k + 1]);
        }
        lemma_find_pushed(fs, pending, rest, paths.drop_first(), name, depth);
        let all = pushed(pending, dirs);
        assert(all.last() == dirs[0]);
        assert(all.drop_last() =~= pushed(pending, rest));
    }
}

/// Below the greatest depth nothing is found.
proof fn lemma_nothing_too_deep(
    fs: files::FileSystem,
    dirs: Seq<Seq<char>>,
    name: Seq<char>,
    depth: int,
)
    requires
        depth > MAX_SCAN_DEPTH,
    ensures
        find_below(fs, dirs, name, depth) is None,
    decreases dirs.len(),
{
    if dirs.len() > 0 {
        assert(find_named(fs, dirs[0], name, depth) is None);
        lemma_nothing_too_deep(fs, dirs.drop_first(), name, depth);
    }
}

/// Whether the entries hold something of this name that is no directory.
fn lists_file(list: &Vec<DirEntry>, name: &str) -> (r: bool)
    ensures
        r == has_file(files::entries(list@), name@),
{
    let ghost all = files::entries(list@);
    let mut k: usize = 0;
    while k < list.len()
        invariant
            k <= list@.len(),
            all == files::entries(list@),
            forall|j: int| 0 <= j < k ==> (#[trigger] all[j]).is_dir || all[j].name != name@,
        decreases list@.len() - k,
    {
        assert(all[k as int].name == list@[k as int].name@);
        if !list[k].is_dir && same_text(list[k].name.as_str(), name) {
            return true;
        }
        k += 1;
    }
    false
}

/// The directories to scan among the entries of `dir`.
fn dirs_to_scan(dir: &str, list: &Vec<DirEntry>, depth: usize) -> (r: Vec<PendingDir>)
    ensures
        are_at(
            r@,
            subdirs(dir@, files::entries(list@), list@.len() as int),
            depth as int,
        ),
{
    let ghost all = files::entries(list@);
    let mut r: Vec<PendingDir> = Vec::new();
    let mut k: usize = 0;
    while k < list.len()
        invariant
            k <= list@.len(),
            all == files::entries(list@),
            are_at(r@, subdirs(dir@, all, k as int), depth as int),
        decreases list@.len() - k,
    {
        assert(all[k as int].name == list@[k as int].name@);
        let name: &str = list[k].name.as_str();
        if list[k].is_dir && !same_text(name, "CMakeFiles") && !same_text(name, "lib")
            && !same_text(name, "bin") {
            r.push(PendingDir { path: path::join(dir, name), depth });
        }
        k += 1;
    }
    r
}

/// Puts `dirs` on top of the pending directories, the first one last.
fn push_all(pending: &mut Vec<PendingDir>, dirs: Vec<PendingDir>)
    ensures
        final(pending)@ == pushed(old(pending)@, dirs@),
{
    let mut rest: Vec<PendingDir> = dirs;
    assert(pushed(old(pending)@, dirs@) =~= pending@ + rest@.reverse());
    while rest.len() > 0
        invariant
            pushed(old(pending)@, dirs@) == pending@ + rest@.reverse(),
        decreases rest@.len(),
    {
        let ghost before = (pending@, rest@);
        match rest.pop() {
            Some(dir) => {
                pending.push(dir);
                assert(before.1.reverse() =~= seq![dir] + rest@.reverse());
                assert(before.0 + before.1.reverse() =~= pending@ + rest@.reverse());
            },
            None => {},
        }
    }
    assert(pending@ + rest@.reverse() =~= pending@);
}

/// A scan whose last directory cannot be read, or lies too deep to have anything scanned
/// below it, goes on with the others.
proof fn lemma_scan_drops(
    fs: files::FileSystem,
    pending: Seq<PendingDir>,
    name: Seq<char>,
)
    requires
        pending.len() > 0,
        pending.last().depth <= MAX_SCAN_DEPTH,
        fs.dirs.contains_key(pending.last().path@) ==> !has_file(
            fs.dirs[pending.last().path@],
            name,
        ) && pending.last().depth == MAX_SCAN_DEPTH,
    ensures
        find_pending(fs, pending, name) == find_pending(fs, pending.drop_last(), name),
        pending_count(fs, pending.drop_last()) < pending_count(fs, pending),
{
    let top = pending.last();
    let dir = top.path@;
    if fs.dirs.contains_key(dir) {
        lemma_nothing_too_deep(fs, dirs_below(fs, dir), name, top.depth + 1);
    }
    assert(find_named(fs, dir, name, top.depth as int) is None);
    assert(dir_count(fs, dir, top.depth as int) >= 1);
}

/// A scan whose last directory lacks the file goes on below it.
proof fn lemma_scan_descends(
    fs: files::FileSystem,
    pending: Seq<PendingDir>,
    below: Seq<PendingDir>,
    name: Seq<char>,
)
    requires
        pending.len() > 0,
        pending.last().depth <= MAX_SCAN_DEPTH,
        fs.dirs.contains_key(pending.last().path@),
        !has_file(fs.dirs[pending.last().path@], name),
        are_at(below, dirs_below(fs, pending.last().path@), pending.last().depth + 1),
    ensures
        find_pending(fs, pending, name) == find_pending(
            fs,
            pushed(pending.drop_last(), below),
            name,
        ),
        pending_count(fs, pushed(pending.drop_last(), below)) < pending_count(fs, pending),
{
    let top = pending.last();
    let dir = top.path@;
    let paths = dirs_below(fs, dir);
    lemma_find_pushed(fs, pending.drop_last(), below, paths, name, top.depth + 1);
    assert(find_named(fs, dir, name, top.depth as int) == find_below(
        fs,
        paths,
        name,
        top.depth + 1,
    ));
    assert(dir_count(fs, dir, top.depth as int) == 1 + below_count(fs, paths, top.depth + 1));
}

/// A scan whose last directory holds the file finds it there.
proof fn lemma_scan_finds(
    fs: files::FileSystem,
    pending: Seq<PendingDir>,
    name: Seq<char>,
)
    requires
        pending.len() > 0,
        pending.last().depth <= MAX_SCAN_DEPTH,
        fs.dirs.contains_key(pending.last().path@),
        has_file(fs.dirs[pending.last().path@], name),
    ensures
        find_pending(fs, pending, name) == Some(path::joined(pending.last().path@, name)),
        0 < pending_count(fs, pending),
{
    let top = pending.last();
    assert(find_named(fs, top.path@, name, top.depth as int) == Some(
        path::joined(top.path@, name),
    ));
    assert(dir_count(fs, top.path@, top.depth as int) >= 1);
}

/// The stage after the entries of the last pending directory are known.
fn scan_on(dirs: Vec<PendingDir>, listing: Option<Vec<DirEntry>>, file_name: &str) -> (r: Stage)
    requires
        dirs@.len() > 0,
        forall|k: int| 0 <= k < dirs@.len() ==> (#[trigger] dirs@[k]).depth <= MAX_SCAN_DEPTH,
    ensures
        match r {
            Stage::Scan(pending) => {
                &&& pending@.len() > 0
                &&& forall|k: int|
                    0 <= k < pending@.len() ==> (#[trigger] pending@[k]).depth <= MAX_SCAN_DEPTH
                &&& forall|fs: files::FileSystem| #[trigger]
                    fs.answers(
                        files::Question::ListDir(dirs@.last().path@),
                        Answer::Entries(listing),
                    ) ==> find_pending(fs, pending@, file_name@) == find_pending(
                        fs,
                        dirs@,
                        file_name@,
                    ) && pending_count(fs, pending@) < pending_count(fs, dirs@)
            },
            Stage::Done(found) => {
                forall|fs: files::FileSystem| #[trigger]
                    fs.answers(
                        files::Question::ListDir(dirs@.last().path@),
                        Answer::Entries(listing),
                    ) ==> text::optional(found) == find_pending(fs, dirs@, file_name@) && 0
                        < pending_count(fs, dirs@)
            },
            _ => false,
        },
{
    let ghost all = dirs@;
    let ghost name = file_name@;
    let ghost top_dir = all.last();
    let ghost question = files::Question::ListDir(top_dir.path@);
    let mut pending: Vec<PendingDir> = dirs;
    let top: PendingDir = match pending.pop() {
        Some(top) => top,
        None => {
            return Stage::Done(None);
        },
    };
    match &listing {
        Some(list) => {
            if lists_file(list, file_name) {
                proof {
                    assert forall|fs: files::FileSystem| #[trigger]
                        fs.answers(question, Answer::Entries(listing)) implies find_pending(
                        fs,
                        all,
                        name,
                    ) == Some(path::joined(top.path@, name)) && 0 < pending_count(fs, all) by {
                        lemma_scan_finds(fs, all, name);
                    }
                }
                return Stage::Done(Some(path::join(top.path.as_str(), file_name)));
            }
            if top.depth < MAX_SCAN_DEPTH {
                let below: Vec<PendingDir> = dirs_to_scan(
                    top.path.as_str(),
                    list,
                    top.depth + 1,
                );
                let ghost below_dirs = below@;
                push_all(&mut pending, below);
                proof {
                    assert forall|fs: files::FileSystem| #[trigger]
                        fs.answers(question, Answer::Entries(listing)) implies find_pending(
                        fs,
                        pending@,
                        name,
                    ) == find_pending(fs, all, name) && pending_count(fs, pending@)
                        < pending_count(fs, all) by {
                        lemma_scan_descends(fs, all, below_dirs, name);
                    }
                    assert forall|k: int| 0 <= k < pending@.len() implies (
                    #[trigger] pending@[k]).depth <= MAX_SCAN_DEPTH by {
                        let n = all.len() - 1;
                        if k < n {
                            assert(pending@[k] == all[k]);
                        } else {
                            assert(pending@[k] == below_dirs[below_dirs.len() - 1 - (k - n)]);
                        }
                    }
                }
            } else {
                proof {
                    assert forall|fs: files::FileSystem| #[trigger]
                        fs.answers(question, Answer::Entries(listing)) implies find_pending(
                        fs,
                        pending@,
                        name,
                    ) == find_pending(fs, all, name) && pending_count(fs, pending@)
                        < pending_count(fs, all) by {
                        lemma_scan_drops(fs, all, name);
                    }
                }
            }
        },
        None => {
            proof {
                assert forall|fs: files::FileSystem| #[trigger]
                    fs.answers(question, Answer::Entries(listing)) implies find_pending(
                    fs,
                    pending@,
                    name,
                ) == find_pending(fs, all, name) && pending_count(fs, pending@) < pending_count(
                    fs,
                    all,
                ) by {
                    lemma_scan_drops(fs, all, name);
                }
            }
        },
    }
    if pending.len() == 0 {
        Stage::Done(None)
    } else {
        Stage::Scan(pending)
    }
}

impl FileSearch {
    /// Goes on with the answer to the last request.
    ///
    /// Whatever file system gave the answer, the search finds in it what it was to
    /// find before, and needs fewer answers.
    pub fn advance(self, answer: Answer) -> (r: FileSearch)
        requires
            self.question() matches Some(question) && files::fits(question, answer),
        ensures
            forall|fs: files::FileSystem| #[trigger]
                fs.answers(self.question()->0, answer) ==> {
                    &&& r.outcome(fs) == self.outcome(fs)
                    &&& r.steps(fs) < self.steps(fs)
                },
    {
        proof {
            use_type_invariant(&self);
            assert forall|fs: files::FileSystem| #[trigger]
                dir_count(fs, self.build_cache@, 0) >= 1 by {}
        }
        let FileSearch { build_cache, file_name, stage } = self;
        match (stage, answer) {
            (Stage::Locations(dir), Answer::Text(contents)) => {
                let pairs: Vec<(String, String)> = match &contents {
                    Some(contents) => parse_fprime_locations(contents.as_str()),
                    None => Vec::new(),
                };
                proof {
                    locations::law_mapped_where_under_a_root(
                        locations::pair_texts(pairs@),
                        dir@,
                    );
                }
                match map_source_to_build(pairs.as_slice(), dir.as_str()) {
                    Some(build_dir) => {
                        let candidate: String = path::join(
                            build_dir.as_str(),
                            file_name.as_str(),
                        );
                        FileSearch { build_cache, file_name, stage: Stage::Probe(candidate) }
                    },
                    None => FileSearch::find_file_named(build_cache, file_name),
                }
            },
            (Stage::Probe(candidate), Answer::Flag(exists)) => {
                if exists {
                    FileSearch { build_cache, file_name, stage: Stage::Done(Some(candidate)) }
                } else {
                    FileSearch::find_file_named(build_cache, file_name)
                }
            },
            (Stage::Scan(dirs), Answer::Entries(listing)) => {
                let stage: Stage = scan_on(dirs, listing, file_name.as_str());
                FileSearch { build_cache, file_name, stage }
            },
            (stage, _) => FileSearch { build_cache, file_name, stage },
        }
    }
}

/// Locate `<Top>TopologyAc.<ext>` for a topology defined in `topology_dir`.
///
/// The source directory is mapped into the build cache through the
/// `fprime-locations.fprime-util` pairs; if that fails, the build cache is
/// scanned for a file with the expected name.
pub fn generated_file_for_topology(
    build_cache: &str,
    topology_dir: Option<&str>,
    top_name: &str,
    file: GeneratedFile,
) -> (r: FileSearch)
    ensures
        r.question() is Some,
        forall|fs: files::FileSystem| #[trigger]
            r.outcome(fs) == generated_file(
                fs,
                build_cache@,
                (match topology_dir {
                    Some(dir) => Some(dir@),
                    None => None,
                }),
                top_name@,
                file,
            ),
        forall|fs: files::FileSystem| #[trigger] r.steps(fs) <= search_steps(fs, build_cache@),
{
    let file_name: String = top_name.to_string().concat("TopologyAc.").concat(file.extension());
    match topology_dir {
        Some(dir) => FileSearch {
            build_cache: build_cache.to_string(),
            file_name,
            stage: Stage::Locations(dir.to_string()),
        },
        None => FileSearch::find_file_named(build_cache.to_string(), file_name),
    }
}

} // verus!
