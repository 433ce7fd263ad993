//! The resolution of an init specifier to the generated places of its code.

use crate::files::{Answer, Request};
use crate::index::{build_cache_dir, GlobalState, PhaseContext, Topology};
use crate::names::instance_cpp_name;
use crate::phases::{GeneratedFile, PhaseInfo};
use crate::search::{generated_file_for_topology, FileSearch};
use crate::snippet::locate_snippet;
use crate::targets::{GeneratedTarget, Unresolved};
use crate::topologies::topologies_containing;
use crate::{files, index, locations, names, path, search, snippet, targets, text, topologies};
use vstd::prelude::*;

verus! {

/// A topology whose generated file is looked for, as a value.
pub struct SiteView {
    /// Fully qualified name of the topology.
    pub name: Seq<char>,
    /// Name without its qualifier.
    pub symbol_name: Seq<char>,
    /// Directory of the file that defines the topology.
    pub dir: Option<Seq<char>>,
}

/// What is looked for, and where, as a value.
pub struct QueryView {
    pub build_cache: Seq<char>,
    pub phase: PhaseInfo,
    /// C++ name of the instance.
    pub cpp_name: Seq<char>,
    pub code: Seq<char>,
    pub sites: Seq<SiteView>,
}

/// The topology as a place to look.
pub open spec fn site_of(topology: Topology) -> SiteView {
    SiteView {
        name: topology.name@,
        symbol_name: topology.symbol_name@,
        dir: match topology.source_path {
            Some(source) => path::parent_of(source@),
            None => None,
        },
    }
}

/// The topologies as places to look.
pub open spec fn sites_of(list: Seq<Topology>) -> Seq<SiteView> {
    Seq::new(list.len(), |i: int| site_of(list[i]))
}

/// Whether the generated file is older than the source. Where a time is not known, it is
/// not.
pub open spec fn is_stale(source: Option<int>, generated: Option<int>) -> bool {
    match (source, generated) {
        (Some(s), Some(g)) => g < s,
        _ => false,
    }
}

/// The target in a generated file of the given path, text and modification time.
pub open spec fn target_in(
    q: QueryView,
    site: SiteView,
    path: Seq<char>,
    contents: Seq<char>,
    source_time: Option<int>,
    time: Option<int>,
) -> targets::TargetView {
    let (line, exact) = snippet::snippet_location(contents, q.phase, q.cpp_name, q.code);
    targets::TargetView {
        topology: site.name,
        path,
        line: line as u32,
        exact,
        stale: is_stale(source_time, time),
    }
}

/// The target at the path, if there is a path and its file can be read.
pub open spec fn target_at(
    fs: files::FileSystem,
    q: QueryView,
    site: SiteView,
    path: Option<Seq<char>>,
    source_time: Option<int>,
) -> Option<targets::TargetView> {
    match path {
        Some(p) => match fs.text(p) {
            Some(contents) => Some(target_in(q, site, p, contents, source_time, fs.time(p))),
            None => None,
        },
        None => None,
    }
}

/// The target of one topology, if it has one.
pub open spec fn target_of(
    fs: files::FileSystem,
    q: QueryView,
    site: SiteView,
    source_time: Option<int>,
) -> Option<targets::TargetView> {
    let path = search::generated_file(
        fs,
        q.build_cache,
        site.dir,
        site.symbol_name,
        q.phase.file,
    );
    target_at(fs, q, site, path, source_time)
}

/// `list` with the target at its end, if there is one.
pub open spec fn with_target(
    list: Seq<targets::TargetView>,
    target: Option<targets::TargetView>,
) -> Seq<targets::TargetView> {
    match target {
        Some(t) => list.push(t),
        None => list,
    }
}

/// The targets of the first `n` topologies, in their order.
pub open spec fn targets_of_first(
    fs: files::FileSystem,
    q: QueryView,
    source_time: Option<int>,
    n: int,
) -> Seq<targets::TargetView>
    decreases n,
{
    if n <= 0 {
        Seq::empty()
    } else {
        with_target(
            targets_of_first(fs, q, source_time, n - 1),
            target_of(fs, q, q.sites[n - 1], source_time),
        )
    }
}

/// The names of the topologies.
pub open spec fn site_names(sites: Seq<SiteView>) -> Seq<Seq<char>> {
    Seq::new(sites.len(), |i: int| sites[i].name)
}

/// What a list of targets comes to: nothing generated, where it is empty.
pub open spec fn settled(
    list: Seq<targets::TargetView>,
    sites: Seq<SiteView>,
) -> Result<Seq<targets::TargetView>, targets::UnresolvedView> {
    if list.len() == 0 {
        Err(targets::UnresolvedView::NotGenerated(site_names(sites)))
    } else {
        Ok(list)
    }
}

/// The query that an init specifier stands for, or why it stands for none.
pub open spec fn query_of(state: GlobalState, ctx: index::ContextView) -> Result<
    QueryView,
    targets::UnresolvedView,
> {
    let list = topologies::listed(state.analysis.topology_map@, ctx.instance);
    match (ctx.phase, index::cache_dir(state.workspace)) {
        (None, _) => Err(targets::UnresolvedView::UnknownPhase(ctx.ordinal)),
        (Some(phase), cache) => if list.len() == 0 {
            Err(targets::UnresolvedView::NoTopology)
        } else {
            match cache {
                None => Err(targets::UnresolvedView::NoBuildCache),
                Some(build_cache) => Ok(
                    QueryView {
                        build_cache,
                        phase,
                        cpp_name: names::cpp_name(ctx.instance),
                        code: ctx.code,
                        sites: sites_of(list),
                    },
                ),
            }
        },
    }
}

/// The modification time of the source, if it has a path and the time is known.
pub open spec fn source_time(fs: files::FileSystem, source_path: Option<Seq<char>>) -> Option<
    int,
> {
    match source_path {
        Some(p) => fs.time(p),
        None => None,
    }
}

/// The generated places of the code of an init specifier in every topology that includes
/// its instance, or why there are none.
pub open spec fn resolution(
    fs: files::FileSystem,
    state: GlobalState,
    ctx: index::ContextView,
) -> Result<Seq<targets::TargetView>, targets::UnresolvedView> {
    match query_of(state, ctx) {
        Err(why) => Err(why),
        Ok(q) => {
            let time = source_time(fs, ctx.source_path);
            settled(targets_of_first(fs, q, time, q.sites.len() as int), q.sites)
        },
    }
}

/// Whether some topology of the table includes the instance.
pub open spec fn is_included(table: Seq<Topology>, instance: Seq<char>) -> bool {
    exists|i: int| 0 <= i < table.len() && topologies::includes(#[trigger] table[i], instance)
}

/// The list of the topologies that include an instance is empty only where there are none.
proof fn lemma_listed(table: Seq<Topology>, instance: Seq<char>)
    ensures
        topologies::listed(table, instance).len() > 0 <==> is_included(table, instance),
        forall|k: int|
            0 <= k < topologies::listed(table, instance).len() ==> exists|i: int|
                0 <= i < table.len() && topologies::includes(#[trigger] table[i], instance)
                    && #[trigger] topologies::listed(table, instance)[k] == table[i],
        forall|i: int|
            0 <= i < table.len() && topologies::includes(#[trigger] table[i], instance)
                ==> exists|k: int|
                0 <= k < topologies::listed(table, instance).len() && #[trigger] topologies::listed(
                    table,
                    instance,
                )[k] == table[i],
{
    topologies::law_listing_exists(table, instance);
    let order = topologies::listing(table, instance);
    let list = topologies::listed(table, instance);
    assert forall|k: int| 0 <= k < list.len() implies exists|i: int|
        0 <= i < table.len() && topologies::includes(#[trigger] table[i], instance)
            && #[trigger] list[k] == table[i] by {
        assert(list[k] == table[order[k]]);
    }
    assert forall|i: int|
        0 <= i < table.len() && topologies::includes(#[trigger] table[i], instance) implies exists|
        k: int,
    | 0 <= k < list.len() && #[trigger] list[k] == table[i] by {
        let k = choose|k: int| 0 <= k < order.len() && order[k] == i;
        assert(list[k] == table[i]);
    }
    if list.len() > 0 {
        assert(topologies::includes(table[order[0]], instance));
    }
}

/// Each reason for having no target comes on its own condition, and the first one that
/// holds is given: the phase is unknown, no topology includes the instance, there is no
/// build cache. Only after that does the file system matter.
pub proof fn law_reasons_come_in_order(
    fs: files::FileSystem,
    state: GlobalState,
    ctx: index::ContextView,
)
    ensures
        ({
            let r = resolution(fs, state, ctx);
            let included = is_included(state.analysis.topology_map@, ctx.instance);
            let cache = index::cache_dir(state.workspace);
            &&& ctx.phase is None ==> r == Err::<Seq<targets::TargetView>, _>(
                targets::UnresolvedView::UnknownPhase(ctx.ordinal),
            )
            &&& ctx.phase is Some && !included ==> r == Err::<Seq<targets::TargetView>, _>(
                targets::UnresolvedView::NoTopology,
            )
            &&& ctx.phase is Some && included && cache is None ==> r == Err::<
                Seq<targets::TargetView>,
                _,
            >(targets::UnresolvedView::NoBuildCache)
            &&& ctx.phase is Some && included && cache is Some ==> r is Ok
                || r->Err_0 is NotGenerated
        }),
{
    lemma_listed(state.analysis.topology_map@, ctx.instance);
}

/// The targets of the first topologies are those that the topologies have, in their order.
proof fn lemma_targets_of_first(
    fs: files::FileSystem,
    q: QueryView,
    time: Option<int>,
    n: int,
    precedes: spec_fn(Seq<char>, Seq<char>) -> bool,
)
    requires
        0 <= n <= q.sites.len(),
        forall|a: int, b: int|
            0 <= a < b < q.sites.len() ==> precedes(
                (#[trigger] q.sites[a]).name,
                (#[trigger] q.sites[b]).name,
            ),
    ensures
        ({
            let list = targets_of_first(fs, q, time, n);
            &&& list.len() <= n
            &&& forall|j: int|
                0 <= j < list.len() ==> exists|i: int|
                    0 <= i < n && target_of(fs, q, #[trigger] q.sites[i], time) == Some(
                        #[trigger] list[j],
                    )
            &&& forall|i: int|
                0 <= i < n ==> (target_of(fs, q, #[trigger] q.sites[i], time) matches Some(t)
                    ==> list.contains(t))
            &&& forall|j: int, k: int|
                0 <= j < k < list.len() ==> precedes(
                    (#[trigger] list[j]).topology,
                    (#[trigger] list[k]).topology,
                )
        }),
    decreases n,
{
    if n > 0 {
        lemma_targets_of_first(fs, q, time, n - 1, precedes);
        let before = targets_of_first(fs, q, time, n - 1);
        let list = targets_of_first(fs, q, time, n);
        let site = q.sites[n - 1];
        assert forall|j: int| 0 <= j < list.len() implies exists|i: int|
            0 <= i < n && target_of(fs, q, #[trigger] q.sites[i], time) == Some(
                #[trigger] list[j],
            ) by {
            if j < before.len() {
                let i = choose|i: int|
                    0 <= i < n - 1 && target_of(fs, q, #[trigger] q.sites[i], time) == Some(
                        before[j],
                    );
                assert(list[j] == before[j]);
                assert(target_of(fs, q, q.sites[i], time) == Some(list[j]));
            } else {
                assert(target_of(fs, q, q.sites[n - 1], time) == Some(list[j]));
            }
        }
        assert forall|i: int| 0 <= i < n implies (target_of(
            fs,
            q,
            #[trigger] q.sites[i],
            time,
        ) matches Some(t) ==> list.contains(t)) by {
            if let Some(t) = target_of(fs, q, q.sites[i], time) {
                if i < n - 1 {
                    let j = choose|j: int| 0 <= j < before.len() && before[j] == t;
                    assert(list[j] == t);
                } else {
                    assert(list[list.len() - 1] == t);
                }
            }
        }
        assert forall|j: int, k: int| 0 <= j < k < list.len() implies precedes(
            (#[trigger] list[j]).topology,
            (#[trigger] list[k]).topology,
        ) by {
            assert(list[j] == before[j]);
            if k < before.len() {
                assert(list[k] == before[k]);
            } else {
                let i = choose|i: int|
                    0 <= i < n - 1 && target_of(fs, q, #[trigger] q.sites[i], time) == Some(
                        before[j],
                    );
                assert(before[j].topology == q.sites[i].name);
                assert(list[k].topology == site.name);
            }
        }
    }
}

/// The targets are those of the topologies that include the instance: each such topology
/// whose generated file is found and can be read has its target among them, and each
/// target is that of such a topology.
pub proof fn law_every_topology_is_resolved(
    fs: files::FileSystem,
    state: GlobalState,
    ctx: index::ContextView,
)
    requires
        query_of(state, ctx) is Ok,
    ensures
        ({
            let table = state.analysis.topology_map@;
            let q = query_of(state, ctx)->Ok_0;
            let time = source_time(fs, ctx.source_path);
            let r = resolution(fs, state, ctx);
            &&& forall|i: int|
                0 <= i < table.len() && topologies::includes(#[trigger] table[i], ctx.instance)
                    ==> (target_of(fs, q, site_of(table[i]), time) matches Some(t) ==> r is Ok
                    && r->Ok_0.contains(t))
            &&& r matches Ok(list) ==> list.len() > 0 && forall|j: int|
                0 <= j < list.len() ==> exists|i: int|
                    0 <= i < table.len() && topologies::includes(#[trigger] table[i], ctx.instance)
                        && target_of(fs, q, site_of(table[i]), time) == Some(#[trigger] list[j])
        }),
{
    let table = state.analysis.topology_map@;
    let q = query_of(state, ctx)->Ok_0;
    let time = source_time(fs, ctx.source_path);
    let all = topologies::listed(table, ctx.instance);
    let list = targets_of_first(fs, q, time, q.sites.len() as int);
    lemma_listed(table, ctx.instance);
    lemma_targets_of_first(fs, q, time, q.sites.len() as int, |a: Seq<char>, b: Seq<char>| true);
    assert forall|i: int|
        0 <= i < table.len() && topologies::includes(#[trigger] table[i], ctx.instance) implies (
    target_of(fs, q, site_of(table[i]), time) matches Some(t) ==> list.contains(t)) by {
        let k = choose|k: int| 0 <= k < all.len() && #[trigger] all[k] == table[i];
        assert(q.sites[k] == site_of(table[i]));
    }
    assert forall|j: int| 0 <= j < list.len() implies exists|i: int|
        0 <= i < table.len() && topologies::includes(#[trigger] table[i], ctx.instance)
            && target_of(fs, q, site_of(table[i]), time) == Some(#[trigger] list[j]) by {
        let k = choose|k: int|
            0 <= k < q.sites.len() && target_of(fs, q, #[trigger] q.sites[k], time) == Some(
                list[j],
            );
        assert(q.sites[k] == site_of(all[k]));
        let i = choose|i: int|
            0 <= i < table.len() && topologies::includes(#[trigger] table[i], ctx.instance)
                && all[k] == table[i];
        assert(target_of(fs, q, site_of(table[i]), time) == Some(list[j]));
    }
}

/// Nothing generated is what is given if and only if no topology that includes the instance
/// has a target, and then the names of all these topologies are given.
pub proof fn law_nothing_generated_names_every_topology(
    fs: files::FileSystem,
    state: GlobalState,
    ctx: index::ContextView,
)
    requires
        query_of(state, ctx) is Ok,
    ensures
        ({
            let table = state.analysis.topology_map@;
            let q = query_of(state, ctx)->Ok_0;
            let time = source_time(fs, ctx.source_path);
            let r = resolution(fs, state, ctx);
            &&& r is Err <==> forall|i: int|
                0 <= i < table.len() && topologies::includes(#[trigger] table[i], ctx.instance)
                    ==> target_of(fs, q, site_of(table[i]), time) is None
            &&& r matches Err(why) ==> why is NotGenerated && forall|i: int|
                0 <= i < table.len() && topologies::includes(#[trigger] table[i], ctx.instance)
                    ==> why->NotGenerated_0.contains(table[i].name@)
        }),
{
    let table = state.analysis.topology_map@;
    let q = query_of(state, ctx)->Ok_0;
    let all = topologies::listed(table, ctx.instance);
    law_every_topology_is_resolved(fs, state, ctx);
    lemma_listed(table, ctx.instance);
    let r = resolution(fs, state, ctx);
    if let Ok(list) = r {
        assert(list[0] == list[0]);
        let time = source_time(fs, ctx.source_path);
        let i = choose|i: int|
            0 <= i < table.len() && topologies::includes(#[trigger] table[i], ctx.instance)
                && target_of(fs, q, site_of(table[i]), time) == Some(list[0]);
        assert(target_of(fs, q, site_of(table[i]), time) is Some);
    } else {
        let names = site_names(q.sites);
        assert forall|i: int|
            0 <= i < table.len() && topologies::includes(
                #[trigger] table[i],
                ctx.instance,
            ) implies names.contains(table[i].name@) by {
            let k = choose|k: int| 0 <= k < all.len() && #[trigger] all[k] == table[i];
            assert(names[k] == table[i].name@);
        }
    }
}

/// The targets come in the order of the names of their topologies.
pub proof fn law_targets_in_order_of_names(
    fs: files::FileSystem,
    state: GlobalState,
    ctx: index::ContextView,
)
    ensures
        resolution(fs, state, ctx) matches Ok(list) ==> forall|j: int, k: int|
            0 <= j < k < list.len() ==> !text::text_less(
                (#[trigger] list[k]).topology,
                (#[trigger] list[j]).topology,
            ),
{
    if let Ok(q) = query_of(state, ctx) {
        let table = state.analysis.topology_map@;
        let order = topologies::listing(table, ctx.instance);
        topologies::law_listing_exists(table, ctx.instance);
        let precedes = |a: Seq<char>, b: Seq<char>| !text::text_less(b, a);
        assert forall|a: int, b: int| 0 <= a < b < q.sites.len() implies precedes(
            (#[trigger] q.sites[a]).name,
            (#[trigger] q.sites[b]).name,
        ) by {
            let (x, y) = (q.sites[a].name, q.sites[b].name);
            assert(x == table[order[a]].name@ && y == table[order[b]].name@);
            assert(topologies::is_listed_before(table, order[a], order[b]));
            text::law_text_order_is_irreflexive(x);
            if text::text_less(x, y) && text::text_less(y, x) {
                text::law_text_order_is_transitive(x, y, x);
            }
        }
        let time = source_time(fs, ctx.source_path);
        lemma_targets_of_first(fs, q, time, q.sites.len() as int, precedes);
        let list = targets_of_first(fs, q, time, q.sites.len() as int);
        assert forall|j: int, k: int| 0 <= j < k < list.len() implies !text::text_less(
            (#[trigger] list[k]).topology,
            (#[trigger] list[j]).topology,
        ) by {
            assert(precedes(list[j].topology, list[k].topology));
        }
    }
}

/// Where no two topologies have the same name, each has one target at most.
pub proof fn law_one_target_for_each_topology(
    fs: files::FileSystem,
    state: GlobalState,
    ctx: index::ContextView,
)
    requires
        topologies::names_differ(state.analysis.topology_map@),
    ensures
        resolution(fs, state, ctx) matches Ok(list) ==> forall|j: int, k: int|
            0 <= j < k < list.len() ==> (#[trigger] list[j]).topology != (
            #[trigger] list[k]).topology,
{
    if let Ok(q) = query_of(state, ctx) {
        let table = state.analysis.topology_map@;
        let order = topologies::listing(table, ctx.instance);
        topologies::law_listing_exists(table, ctx.instance);
        let precedes = |a: Seq<char>, b: Seq<char>| a != b;
        assert forall|a: int, b: int| 0 <= a < b < q.sites.len() implies precedes(
            (#[trigger] q.sites[a]).name,
            (#[trigger] q.sites[b]).name,
        ) by {
            assert(q.sites[a].name == table[order[a]].name@);
            assert(q.sites[b].name == table[order[b]].name@);
            assert(topologies::is_listed_before(table, order[a], order[b]));
            text::law_text_order_is_irreflexive(q.sites[a].name);
        }
        let time = source_time(fs, ctx.source_path);
        lemma_targets_of_first(fs, q, time, q.sites.len() as int, precedes);
        let list = targets_of_first(fs, q, time, q.sites.len() as int);
        assert forall|j: int, k: int| 0 <= j < k < list.len() implies (#[trigger] list[j]).topology
            != (#[trigger] list[k]).topology by {
            assert(precedes(list[j].topology, list[k].topology));
        }
    }
}

/// Each target lies in a file that can be read, at the place of the snippet in its text,
/// and is stale if and only if both that file's time and the source's are known and the
/// file is older.
pub proof fn law_target_tells_of_its_file(
    fs: files::FileSystem,
    state: GlobalState,
    ctx: index::ContextView,
)
    ensures
        resolution(fs, state, ctx) matches Ok(list) ==> forall|j: int|
            #![trigger list[j]]
            0 <= j < list.len() ==> {
                let t = list[j];
                &&& fs.text(t.path) matches Some(contents) && (t.line, t.exact) == ({
                    let (line, exact) = snippet::snippet_location(
                        contents,
                        ctx.phase->0,
                        names::cpp_name(ctx.instance),
                        ctx.code,
                    );
                    (line as u32, exact)
                })
                &&& t.stale <==> (source_time(fs, ctx.source_path) matches Some(source) && (
                fs.time(t.path) matches Some(generated) && generated < source))
            },
{
    if let Ok(q) = query_of(state, ctx) {
        let time = source_time(fs, ctx.source_path);
        let n = q.sites.len() as int;
        lemma_targets_of_first(fs, q, time, n, |a: Seq<char>, b: Seq<char>| true);
        let list = targets_of_first(fs, q, time, n);
        assert forall|j: int| 0 <= j < list.len() implies exists|i: int|
            0 <= i < n && target_of(fs, q, #[trigger] q.sites[i], time) == Some(
                #[trigger] list[j],
            ) by {}
    }
}

/// What is looked at for a topology: the file that is generated for it, with the directory of
/// its source, its own name and the phase's file. It has a target if and only if that file is
/// found and can be read. The target names the topology and the file, gives the location of
/// the snippet in the file's text, and is stale if and only if the times of the file and of the
/// specifier's source are known and the file is older.
pub proof fn law_target_comes_from_the_file_of_its_topology(
    fs: files::FileSystem,
    state: GlobalState,
    ctx: index::ContextView,
    topology: Topology,
)
    requires
        query_of(state, ctx) is Ok,
    ensures
        ({
            let target = target_of(
                fs,
                query_of(state, ctx)->Ok_0,
                site_of(topology),
                source_time(fs, ctx.source_path),
            );
            let dir = match topology.source_path {
                Some(source) => path::parent_of(source@),
                None => None,
            };
            let file = search::generated_file(
                fs,
                index::cache_dir(state.workspace)->0,
                dir,
                topology.symbol_name@,
                ctx.phase->0.file,
            );
            &&& target is Some <==> (file matches Some(p) && fs.texts.contains_key(p))
            &&& target matches Some(t) ==> {
                let (line, exact) = snippet::snippet_location(
                    fs.texts[t.path],
                    ctx.phase->0,
                    names::cpp_name(ctx.instance),
                    ctx.code,
                );
                &&& t.topology == topology.name@
                &&& file == Some(t.path)
                &&& t.line == line as u32
                &&& t.exact == exact
                &&& t.stale <==> (ctx.source_path matches Some(source) && fs.times.contains_key(
                    source,
                ) && fs.times.contains_key(t.path) && fs.times[t.path] < fs.times[source])
            }
        }),
{
}

/// Where the source of a topology that includes the instance is a file in a directory that the
/// pairs of the locations file map, and the mapped directory holds `<Top>TopologyAc.<ext>`, the
/// resolution has a target of that topology in exactly that file, whatever else of that name
/// the build cache holds.
pub proof fn law_target_lies_in_the_mapped_directory(
    fs: files::FileSystem,
    state: GlobalState,
    ctx: index::ContextView,
    i: int,
    source: String,
    dir: Seq<char>,
    name: Seq<char>,
    cache: Seq<char>,
    build_dir: Seq<char>,
)
    requires
        0 <= i < state.analysis.topology_map@.len(),
        state.analysis.topology_map@[i].instances@.map_values(|n: String| n@).contains(
            ctx.instance,
        ),
        state.analysis.topology_map@[i].source_path == Some(source),
        source@ == path::joined(dir, name),
        path::is_name(name),
        dir.len() > 1 ==> dir.last() != '/' && !(dir.last() == '.' && dir[dir.len() - 2] == '/'),
        ctx.phase is Some,
        index::cache_dir(state.workspace) == Some(cache),
        ({
            let locs = path::joined(cache, "fprime-locations.fprime-util"@);
            fs.texts.contains_key(locs) && locations::mapped(
                locations::location_pairs(fs.texts[locs]),
                dir,
            ) == Some(build_dir)
        }),
        ({
            let file = path::joined(
                build_dir,
                state.analysis.topology_map@[i].symbol_name@ + "TopologyAc."@ + (
                match ctx.phase->0.file {
                    GeneratedFile::Hpp => "hpp"@,
                    GeneratedFile::Cpp => "cpp"@,
                }),
            );
            fs.files.contains(file) && fs.texts.contains_key(file)
        }),
    ensures
        resolution(fs, state, ctx) matches Ok(list) && exists|j: int|
            0 <= j < list.len() && (#[trigger] list[j]).topology
                == state.analysis.topology_map@[i].name@ && list[j].path == path::joined(
                build_dir,
                state.analysis.topology_map@[i].symbol_name@ + "TopologyAc."@ + (
                match ctx.phase->0.file {
                    GeneratedFile::Hpp => "hpp"@,
                    GeneratedFile::Cpp => "cpp"@,
                }),
            ),
{
    let table = state.analysis.topology_map@;
    let topology = table[i];
    topologies::law_included_by_the_whole_name(topology, ctx.instance);
    assert(topologies::includes(table[i], ctx.instance));
    lemma_listed(table, ctx.instance);
    assert(query_of(state, ctx) is Ok);
    path::law_parent_gives_the_directory_back(dir, name);
    law_target_comes_from_the_file_of_its_topology(fs, state, ctx, topology);
    search::law_generated_file_lies_where_the_pairs_say(
        fs,
        cache,
        Some(dir),
        topology.symbol_name@,
        ctx.phase->0.file,
    );
    law_every_topology_is_resolved(fs, state, ctx);
    let t = target_of(
        fs,
        query_of(state, ctx)->Ok_0,
        site_of(topology),
        source_time(fs, ctx.source_path),
    )->0;
    let list = resolution(fs, state, ctx)->Ok_0;
    let j = choose|j: int| 0 <= j < list.len() && list[j] == t;
    assert(list[j].topology == topology.name@);
}

/// The targets of the first topologies are those that they have, in their order.
proof fn lemma_targets_are_filtered(
    fs: files::FileSystem,
    q: QueryView,
    all: Seq<Topology>,
    time: Option<int>,
    n: int,
)
    requires
        q.sites == sites_of(all),
        0 <= n <= all.len(),
    ensures
        targets_of_first(fs, q, time, n) == all.take(n).filter_map(
            |t: Topology| target_of(fs, q, site_of(t), time),
        ),
    decreases n,
{
    let part = all.take(n);
    let keep = |t: Topology| target_of(fs, q, site_of(t), time);
    if n > 0 {
        lemma_targets_are_filtered(fs, q, all, time, n - 1);
        assert(part.drop_last() =~= all.take(n - 1));
        assert(part.last() == all[n - 1]);
        assert(q.sites[n - 1] == site_of(all[n - 1]));
        let before = targets_of_first(fs, q, time, n - 1);
        if let Some(t) = keep(all[n - 1]) {
            assert(before.push(t) =~= before + seq![t]);
        }
        assert(part.filter_map(keep) == (match keep(part.last()) {
            Some(x) => part.drop_last().filter_map(keep) + seq![x],
            None => part.drop_last().filter_map(keep),
        }));
    } else {
        assert(part.filter_map(keep) =~= Seq::empty());
    }
}

/// The resolution goes through the list of the topologies that include the instance: it gives
/// the target of each that has one, in the order of the list. Where none has one, it gives the
/// names of all of them, in that order.
pub proof fn law_resolution_goes_through_the_list(
    fs: files::FileSystem,
    state: GlobalState,
    ctx: index::ContextView,
)
    requires
        query_of(state, ctx) is Ok,
    ensures
        ({
            let q = query_of(state, ctx)->Ok_0;
            let time = source_time(fs, ctx.source_path);
            let all = topologies::listed(state.analysis.topology_map@, ctx.instance);
            let found = all.filter_map(|t: Topology| target_of(fs, q, site_of(t), time));
            resolution(fs, state, ctx) == (if found.len() > 0 {
                Ok(found)
            } else {
                Err(
                    targets::UnresolvedView::NotGenerated(
                        all.map_values(|t: Topology| t.name@),
                    ),
                )
            })
        }),
{
    let q = query_of(state, ctx)->Ok_0;
    let time = source_time(fs, ctx.source_path);
    let all = topologies::listed(state.analysis.topology_map@, ctx.instance);
    lemma_targets_are_filtered(fs, q, all, time, all.len() as int);
    assert(all.take(all.len() as int) =~= all);
    assert(site_names(q.sites) =~= all.map_values(|t: Topology| t.name@));
}

/// Which reason is given hangs on the phase, on the instances of the topologies and on the build
/// cache alone, in this order, whatever the file system holds. A specifier stands for something
/// to look for if and only if none of these reasons holds.
pub proof fn law_reasons_hang_on_the_index_alone(
    fs: files::FileSystem,
    state: GlobalState,
    ctx: index::ContextView,
)
    ensures
        ({
            let r = resolution(fs, state, ctx);
            let table = state.analysis.topology_map@;
            let included = exists|i: int|
                0 <= i < table.len() && (#[trigger] table[i]).instances@.map_values(
                    |n: String| n@,
                ).contains(ctx.instance);
            let cached = state.workspace matches index::Workspace::LocsFile(Some(locs))
                && path::components(locs@).len() > 0 && path::components(locs@) != seq!["/"@];
            &&& query_of(state, ctx) is Ok <==> ctx.phase is Some && included && cached
            &&& ctx.phase is None <==> (r matches Err(why) && why
                == targets::UnresolvedView::UnknownPhase(ctx.ordinal))
            &&& ctx.phase is Some && !included <==> (r matches Err(why) && why is NoTopology)
            &&& ctx.phase is Some && included && !cached <==> (r matches Err(why) && why
                is NoBuildCache)
        }),
{
    let table = state.analysis.topology_map@;
    lemma_listed(table, ctx.instance);
    assert forall|i: int| 0 <= i < table.len() implies (topologies::includes(
        #[trigger] table[i],
        ctx.instance,
    ) <==> table[i].instances@.map_values(|n: String| n@).contains(ctx.instance)) by {
        topologies::law_included_by_the_whole_name(table[i], ctx.instance);
    }
    if let index::Workspace::LocsFile(Some(locs)) = state.workspace {
        path::law_parent_components(locs@);
    }
    law_reasons_come_in_order(fs, state, ctx);
}

/// A topology whose generated file is looked for.
struct Site {
    name: String,
    symbol_name: String,
    dir: Option<String>,
}

/// What is looked for, and where.
struct Query {
    build_cache: String,
    phase: PhaseInfo,
    cpp_name: String,
    code: String,
    sites: Vec<Site>,
}

impl View for Site {
    type V = SiteView;

    closed spec fn view(&self) -> SiteView {
        SiteView {
            name: self.name@,
            symbol_name: self.symbol_name@,
            dir: text::optional(self.dir),
        }
    }
}

impl View for Query {
    type V = QueryView;

    closed spec fn view(&self) -> QueryView {
        QueryView {
            build_cache: self.build_cache@,
            phase: self.phase,
            cpp_name: self.cpp_name@,
            code: self.code@,
            sites: Seq::new(self.sites@.len(), |i: int| self.sites@[i]@),
        }
    }
}

/// Where a resolution stands.
enum Stage {
    /// Waiting for the modification time of the source at this path.
    SourceTime(String),
    /// Searching the generated file of a topology.
    Search(usize, FileSearch),
    /// Waiting for the text of the generated file at this path.
    ReadText(usize, String),
    /// Waiting for the modification time of the generated file of this path and text.
    FileTime(usize, String, String),
    /// Done.
    Done,
}

/// The resolution of an init specifier, while it goes on.
pub struct TargetSearch {
    query: Query,
    source_time: Option<i128>,
    targets: Vec<GeneratedTarget>,
    stage: Stage,
}

/// The integer of an optional time.
spec fn optional_time(time: Option<i128>) -> Option<int> {
    match time {
        Some(t) => Some(t as int),
        None => None,
    }
}

/// The targets of the topologies from index `n` on, after those of `list`.
spec fn targets_from(
    fs: files::FileSystem,
    q: QueryView,
    time: Option<int>,
    n: int,
    list: Seq<targets::TargetView>,
) -> Seq<targets::TargetView>
    decreases q.sites.len() - n,
{
    if n >= q.sites.len() {
        list
    } else {
        targets_from(
            fs,
            q,
            time,
            n + 1,
            with_target(list, target_of(fs, q, q.sites[n], time)),
        )
    }
}

/// Number of answers that the topologies from index `n` on need at most.
spec fn steps_from(fs: files::FileSystem, q: QueryView, n: int) -> nat
    decreases q.sites.len() - n,
{
    if n >= q.sites.len() {
        0
    } else {
        search::search_steps(fs, q.build_cache) + 3 + steps_from(fs, q, n + 1)
    }
}

/// Going on from the targets of the first topologies gives those of all.
proof fn lemma_targets_from(fs: files::FileSystem, q: QueryView, time: Option<int>, n: int)
    requires
        0 <= n <= q.sites.len(),
    ensures
        targets_from(fs, q, time, n, targets_of_first(fs, q, time, n)) == targets_of_first(
            fs,
            q,
            time,
            q.sites.len() as int,
        ),
    decreases q.sites.len() - n,
{
    if n < q.sites.len() {
        lemma_targets_from(fs, q, time, n + 1);
    }
}

impl TargetSearch {
    #[verifier::type_invariant]
    spec fn wf(self) -> bool {
        match self.stage {
            Stage::Search(n, search) => n < self.query.sites.len() && search.question() is Some,
            Stage::ReadText(n, _) => n < self.query.sites.len(),
            Stage::FileTime(n, _, _) => n < self.query.sites.len(),
            _ => true,
        }
    }

    /// What the resolution wants to know next; nothing once it is done.
    pub closed spec fn question(self) -> Option<files::Question> {
        match self.stage {
            Stage::SourceTime(path) => Some(files::Question::ModifiedTime(path@)),
            Stage::Search(_, search) => search.question(),
            Stage::ReadText(_, path) => Some(files::Question::ReadText(path@)),
            Stage::FileTime(_, path, _) => Some(files::Question::ModifiedTime(path@)),
            Stage::Done => None,
        }
    }

    /// The targets that the resolution finds in the file system.
    spec fn all_targets(self, fs: files::FileSystem) -> Seq<targets::TargetView> {
        let q = self.query@;
        let list = targets::target_views(self.targets@);
        let time = optional_time(self.source_time);
        match self.stage {
            Stage::SourceTime(path) => targets_from(fs, q, fs.time(path@), 0, list),
            Stage::Search(n, search) => targets_from(
                fs,
                q,
                time,
                n + 1,
                with_target(
                    list,
                    target_at(fs, q, q.sites[n as int], search.outcome(fs), time),
                ),
            ),
            Stage::ReadText(n, path) => targets_from(
                fs,
                q,
                time,
                n + 1,
                with_target(list, target_at(fs, q, q.sites[n as int], Some(path@), time)),
            ),
            Stage::FileTime(n, path, contents) => targets_from(
                fs,
                q,
                time,
                n + 1,
                list.push(
                    target_in(q, q.sites[n as int], path@, contents@, time, fs.time(path@)),
                ),
            ),
            Stage::Done => list,
        }
    }

    /// What the resolution comes to in the file system.
    pub closed spec fn outcome(self, fs: files::FileSystem) -> Result<
        Seq<targets::TargetView>,
        targets::UnresolvedView,
    > {
        settled(self.all_targets(fs), self.query@.sites)
    }

    /// Number of answers that the resolution still needs at most.
    pub closed spec fn steps(self, fs: files::FileSystem) -> nat {
        let q = self.query@;
        match self.stage {
            Stage::SourceTime(_) => 1 + steps_from(fs, q, 0),
            Stage::Search(n, search) => 3 + search.steps(fs) + steps_from(fs, q, n + 1),
            Stage::ReadText(n, _) => 2 + steps_from(fs, q, n + 1),
            Stage::FileTime(n, _, _) => 1 + steps_from(fs, q, n + 1),
            Stage::Done => 0,
        }
    }

    /// Whether the resolution needs no further answer.
    pub fn is_done(&self) -> (r: bool)
        ensures
            r == (self.question() is None),
    {
        proof {
            use_type_invariant(self);
        }
        matches!(self.stage, Stage::Done)
    }

    /// What the resolution wants to know next; nothing once it is done.
    pub fn request(&self) -> (r: Option<Request>)
        ensures
            r is Some <==> self.question() is Some,
            r matches Some(request) ==> self.question() == Some(request@),
    {
        match &self.stage {
            Stage::SourceTime(path) => Some(Request::ModifiedTime(path.clone())),
            Stage::Search(_, search) => search.request(),
            Stage::ReadText(_, path) => Some(Request::ReadText(path.clone())),
            Stage::FileTime(_, path, _) => Some(Request::ModifiedTime(path.clone())),
            Stage::Done => None,
        }
    }

    /// The state in which the topology of index `n` is next.
    fn begin(
        query: Query,
        source_time: Option<i128>,
        targets: Vec<GeneratedTarget>,
        n: usize,
    ) -> (r: TargetSearch)
        ensures
            r.query == query,
            forall|fs: files::FileSystem| #[trigger]
                r.all_targets(fs) == targets_from(
                    fs,
                    query@,
                    optional_time(source_time),
                    n as int,
                    targets::target_views(targets@),
                ),
            forall|fs: files::FileSystem| #[trigger]
                r.steps(fs) <= steps_from(fs, query@, n as int),
            n < query@.sites.len() ==> r.question() is Some,
    {
        if n < query.sites.len() {
            let site: &Site = &query.sites[n];
            let dir: Option<&str> = match &site.dir {
                Some(dir) => Some(dir.as_str()),
                None => None,
            };
            let search: FileSearch = generated_file_for_topology(
                query.build_cache.as_str(),
                dir,
                site.symbol_name.as_str(),
                query.phase.file,
            );
            assert(query@.sites[n as int] == query.sites@[n as int]@);
            TargetSearch { query, source_time, targets, stage: Stage::Search(n, search) }
        } else {
            TargetSearch { query, source_time, targets, stage: Stage::Done }
        }
    }

    /// Goes on with the answer to the last request.
    ///
    /// Whatever file system gave the answer, the resolution comes to the same in it as
    /// before, and needs fewer answers.
    pub fn advance(self, answer: Answer) -> (r: TargetSearch)
        requires
            self.question() matches Some(question) && files::fits(question, answer),
        ensures
            forall|fs: files::FileSystem| #[trigger]
                fs.answers(self.question()->0, answer) ==> {
                    &&& r.outcome(fs) == self.outcome(fs)
                    &&& r.steps(fs) < self.steps(fs)
                },
    {
        proof {
            use_type_invariant(&self);
        }
        let TargetSearch { query, source_time, targets, stage } = self;
        match (stage, answer) {
            (Stage::SourceTime(_), Answer::Time(time)) => TargetSearch::begin(
                query,
                time,
                targets,
                0,
            ),
            (Stage::Search(n, search), answer) => {
                let next: FileSearch = search.advance(answer);
                if !next.is_done() {
                    return TargetSearch {
                        query,
                        source_time,
                        targets,
                        stage: Stage::Search(n, next),
                    };
                }
                match next.found() {
                    Some(path) => TargetSearch {
                        query,
                        source_time,
                        targets,
                        stage: Stage::ReadText(n, path),
                    },
                    None => TargetSearch::begin(query, source_time, targets, n + 1),
                }
            },
            (Stage::ReadText(n, path), Answer::Text(contents)) => match contents {
                Some(contents) => TargetSearch {
                    query,
                    source_time,
                    targets,
                    stage: Stage::FileTime(n, path, contents),
                },
                None => TargetSearch::begin(query, source_time, targets, n + 1),
            },
            (Stage::FileTime(n, path, contents), Answer::Time(time)) => {
                let stale: bool = match (source_time, time) {
                    (Some(source), Some(generated)) => generated < source,
                    _ => false,
                };
                let (line, exact): (u32, bool) = locate_snippet(
                    contents.as_str(),
                    &query.phase,
                    query.cpp_name.as_str(),
                    query.code.as_str(),
                );
                let target: GeneratedTarget = GeneratedTarget {
                    topology: query.sites[n].name.clone(),
                    path,
                    line,
                    exact,
                    stale,
                };
                let mut found: Vec<GeneratedTarget> = targets;
                let ghost before = targets::target_views(found@);
                found.push(target);
                assert(targets::target_views(found@) =~= before.push(target@));
                assert(query@.sites[n as int] == query.sites@[n as int]@);
                TargetSearch::begin(query, source_time, found, n + 1)
            },
            (stage, _) => TargetSearch { query, source_time, targets, stage },
        }
    }

    /// What the resolution came to, once it is done.
    pub fn finish(self) -> (r: Result<Vec<GeneratedTarget>, Unresolved>)
        requires
            self.question() is None,
        ensures
            forall|fs: files::FileSystem| #[trigger]
                self.outcome(fs) == targets::resolution_view(r),
    {
        proof {
            use_type_invariant(&self);
        }
        if self.targets.len() > 0 {
            return Ok(self.targets);
        }
        let mut list: Vec<String> = Vec::new();
        let mut i: usize = 0;
        while i < self.query.sites.len()
            invariant
                i <= self.query.sites@.len(),
                list@.len() == i,
                forall|k: int|
                    0 <= k < i ==> (#[trigger] list@[k])@ == self.query.sites@[k].name@,
            decreases self.query.sites@.len() - i,
        {
            list.push(self.query.sites[i].name.clone());
            i += 1;
        }
        assert(text::texts(list@) =~= site_names(self.query@.sites));
        Err(Unresolved::NotGenerated(list))
    }
}

/// Resolve the generated locations of an init snippet across every topology
/// that includes its instance. The search for them is left to go on; it fails at once
/// where there is nothing to search for.
pub fn generated_targets(state: &GlobalState, ctx: &PhaseContext) -> (r: Result<
    TargetSearch,
    Unresolved,
>)
    ensures
        r is Ok <==> query_of(*state, ctx@) is Ok,
        r matches Err(why) ==> query_of(*state, ctx@) == Err::<QueryView, _>(why@),
        r matches Ok(search) ==> {
            &&& search.question() is Some
            &&& forall|fs: files::FileSystem| #[trigger]
                search.outcome(fs) == resolution(fs, *state, ctx@)
        },
{
    let phase: PhaseInfo = match ctx.phase {
        Some(phase) => phase,
        None => {
            return Err(Unresolved::UnknownPhase(ctx.ordinal));
        },
    };
    let list: Vec<&Topology> = topologies_containing(
        state,
        ctx.instance_qualified_name.as_str(),
    );
    if list.len() == 0 {
        return Err(Unresolved::NoTopology);
    }
    let build_cache: String = match build_cache_dir(state) {
        Some(dir) => dir,
        None => {
            return Err(Unresolved::NoBuildCache);
        },
    };
    let mut sites: Vec<Site> = Vec::new();
    let mut i: usize = 0;
    while i < list.len()
        invariant
            i <= list@.len(),
            sites@.len() == i,
            forall|k: int| 0 <= k < i ==> (#[trigger] sites@[k])@ == site_of(*list@[k]),
        decreases list@.len() - i,
    {
        let topology: &Topology = list[i];
        let dir: Option<String> = match &topology.source_path {
            Some(source) => path::parent(source.as_str()),
            None => None,
        };
        sites.push(
            Site {
                name: topology.name.clone(),
                symbol_name: topology.symbol_name.clone(),
                dir,
            },
        );
        i += 1;
    }
    let query: Query = Query {
        build_cache,
        phase,
        cpp_name: instance_cpp_name(ctx.instance_qualified_name.as_str()),
        code: ctx.code.clone(),
        sites,
    };
    proof {
        let all = topologies::listed(
            state.analysis.topology_map@,
            ctx.instance_qualified_name@,
        );
        assert(query@.sites =~= sites_of(all));
        assert(query_of(*state, ctx@) == Ok::<QueryView, targets::UnresolvedView>(query@));
        let none = Seq::<targets::TargetView>::empty();
        assert forall|fs: files::FileSystem, time: Option<int>| #[trigger]
            targets_from(fs, query@, time, 0, none) == targets_of_first(
                fs,
                query@,
                time,
                query@.sites.len() as int,
            ) by {
            lemma_targets_from(fs, query@, time, 0);
        }
    }
    let targets: Vec<GeneratedTarget> = Vec::new();
    assert(targets::target_views(targets@) =~= Seq::<targets::TargetView>::empty());
    match &ctx.source_path {
        Some(source) => Ok(TargetSearch {
            query,
            source_time: None,
            targets,
            stage: Stage::SourceTime(source.clone()),
        }),
        None => Ok(TargetSearch::begin(query, None, targets, 0)),
    }
}

} // verus!
