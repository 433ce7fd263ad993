//! The hover text of an init specifier.

use crate::index::{phase_context, GlobalState, InitSpecAt, PhaseContext, Range};
use crate::names::instance_cpp_name;
use crate::phases::{GeneratedFile, PhaseInfo, Stage};
use crate::targets::{GeneratedTarget, Unresolved};
use crate::text::{joined, to_decimal, trimmed};
use crate::{files, index, names, path, resolve, targets, text, topologies};
use vstd::prelude::*;

verus! {

/// What is shown for an init specifier.
#[derive(Debug)]
pub struct Hover {
    /// The contents, in Markdown.
    pub value: String,
    /// The range of the specifier.
    pub range: Range,
}

/// When the code of a phase runs, in words.
pub open spec fn stage_text(stage: Stage) -> Seq<char> {
    match stage {
        Stage::Static => "static, file scope"@,
        Stage::Setup => "runs during `setup()`"@,
        Stage::Teardown => "runs during `teardown()`"@,
    }
}

/// The end of the name of a generated file.
pub open spec fn file_suffix(file: GeneratedFile) -> Seq<char> {
    match file {
        GeneratedFile::Hpp => "TopologyAc.hpp"@,
        GeneratedFile::Cpp => "TopologyAc.cpp"@,
    }
}

/// The line that names a phase.
pub open spec fn phase_title(phase: PhaseInfo) -> Seq<char> {
    "**Init phase** `"@ + phase.name@ + "` — `Fpp.ToCpp.Phases` ordinal "@ + text::decimal(
        phase.ordinal as int,
    ) + ", "@ + stage_text(phase.stage)
}

/// The line that says where the code of a phase is generated.
pub open spec fn phase_destination(phase: PhaseInfo, instance: Seq<char>) -> Seq<char> {
    "Generated into `"@ + phase.signature_text(names::cpp_name(instance)) + "` in `<Top>"@
        + file_suffix(phase.file) + "`."@
}

/// The line for an ordinal that is no phase.
pub open spec fn unknown_phase(ordinal: int) -> Seq<char> {
    "**Init phase** ordinal "@ + text::decimal(ordinal)
        + " — not a phase known to fpp-to-cpp (`Fpp.ToCpp.Phases` defines 0..12)."@
}

/// The lines on the phase.
pub open spec fn phase_lines(
    ordinal: int,
    phase: Option<PhaseInfo>,
    instance: Seq<char>,
) -> Seq<Seq<char>> {
    let blank = Seq::<char>::empty();
    match phase {
        Some(phase) => seq![
            phase_title(phase),
            blank,
            phase.description@,
            blank,
            "Default code: "@ + phase.default_code@,
            blank,
            phase_destination(phase, instance),
        ],
        None => seq![unknown_phase(ordinal)],
    }
}

/// The line on the instance and, where it is known, its component.
pub open spec fn instance_line(instance: Seq<char>, component: Option<Seq<char>>) -> Seq<char> {
    match component {
        Some(component) => "**Instance** `"@ + instance + "` : `"@ + component + "`"@,
        None => "**Instance** `"@ + instance + "`"@,
    }
}

/// The line on a target, with a link to it. Lines are shown counted from one.
pub open spec fn target_line(t: targets::TargetView, uri: Option<Seq<char>>) -> Seq<char> {
    let name = match path::name_of(t.path) {
        Some(name) => name,
        None => Seq::empty(),
    };
    let address = match uri {
        Some(uri) => uri,
        None => Seq::empty(),
    };
    let line = text::decimal(t.line + 1);
    let link = "- `"@ + t.topology + "` → ["@ + name + ":"@ + line + "]("@ + address + "#L"@
        + line + ")"@;
    let noted = if t.exact {
        link
    } else {
        link + " — snippet text not found, pointing at the phase section"@
    };
    if t.stale {
        noted
            + " — **build cache may be stale** (generated file is older than this source; run `fprime-util build`)"@
    } else {
        noted
    }
}

/// The lines on the first `n` targets.
pub open spec fn target_lines(
    list: Seq<targets::TargetView>,
    uris: Seq<Option<Seq<char>>>,
    n: int,
) -> Seq<Seq<char>> {
    Seq::new(n as nat, |i: int| target_line(list[i], uris[i]))
}

/// The names, each between backquotes.
pub open spec fn quoted(list: Seq<Seq<char>>) -> Seq<Seq<char>> {
    Seq::new(list.len(), |i: int| "`"@ + list[i] + "`"@)
}

/// The lines on the generated code.
pub open spec fn resolution_lines(
    resolved: Result<Seq<targets::TargetView>, targets::UnresolvedView>,
    uris: Seq<Option<Seq<char>>>,
) -> Seq<Seq<char>> {
    match resolved {
        Ok(list) => seq![
            "**Generated code** (Ctrl+click the `phase` keyword or the code to jump)"@,
            Seq::empty(),
        ] + target_lines(list, uris, list.len() as int),
        Err(targets::UnresolvedView::UnknownPhase(_)) => Seq::empty(),
        Err(targets::UnresolvedView::NoTopology) => seq![
            "**Generated code**: instance is not part of any topology."@,
        ],
        Err(targets::UnresolvedView::NoBuildCache) => seq![
            "**Generated code**: no build cache configured (set `buildCache` in `.fpp-lsp`)."@,
        ],
        Err(targets::UnresolvedView::NotGenerated(list)) => seq![
            "**Generated code**: no `TopologyAc` file found in the build cache for "@
                + text::join(quoted(list), ", "@)
                + " — run `fprime-util generate`/`build`."@,
        ],
    }
}

/// The lines of the hover text.
pub open spec fn hover_lines(
    ctx: index::ContextView,
    resolved: Result<Seq<targets::TargetView>, targets::UnresolvedView>,
    uris: Seq<Option<Seq<char>>>,
) -> Seq<Seq<char>> {
    phase_lines(ctx.ordinal, ctx.phase, ctx.instance) + seq![
        Seq::empty(),
        instance_line(ctx.instance, ctx.component),
        Seq::empty(),
    ] + resolution_lines(resolved, uris)
}

/// The hover text: its lines, without surrounding whitespace.
pub open spec fn hover_markdown(
    ctx: index::ContextView,
    resolved: Result<Seq<targets::TargetView>, targets::UnresolvedView>,
    uris: Seq<Option<Seq<char>>>,
) -> Seq<char> {
    text::trim(text::join(hover_lines(ctx, resolved, uris), "\n"@))
}

/// The texts of a sequence of optional strings.
pub open spec fn optional_texts(list: Seq<Option<String>>) -> Seq<Option<Seq<char>>> {
    Seq::new(list.len(), |i: int| text::optional(list[i]))
}

/// The URIs are taken as they are given, each at its place.
pub proof fn law_uris_are_taken_as_given(list: Seq<Option<String>>)
    ensures
        optional_texts(list).len() == list.len(),
        forall|i: int|
            0 <= i < list.len() ==> #[trigger] optional_texts(list)[i] == (match list[i] {
                Some(uri) => Some(uri@),
                None => None,
            }),
{
}

/// The hover text shows each of its lines that neither begins nor ends with whitespace.
proof fn lemma_hover_shows_line(
    ctx: index::ContextView,
    resolved: Result<Seq<targets::TargetView>, targets::UnresolvedView>,
    uris: Seq<Option<Seq<char>>>,
    k: int,
)
    requires
        0 <= k < hover_lines(ctx, resolved, uris).len(),
        text::is_trimmed(hover_lines(ctx, resolved, uris)[k]),
    ensures
        text::shows(
            hover_markdown(ctx, resolved, uris),
            hover_lines(ctx, resolved, uris)[k],
        ),
{
    let lines = hover_lines(ctx, resolved, uris);
    text::lemma_join_shows(lines, "\n"@, k);
    text::lemma_trim_shows(text::join(lines, "\n"@), lines[k]);
}

/// A line of the part on the generated code is a line of the hover text.
proof fn lemma_resolution_line(
    ctx: index::ContextView,
    resolved: Result<Seq<targets::TargetView>, targets::UnresolvedView>,
    uris: Seq<Option<Seq<char>>>,
    i: int,
)
    requires
        0 <= i < resolution_lines(resolved, uris).len(),
        text::is_trimmed(resolution_lines(resolved, uris)[i]),
    ensures
        text::shows(
            hover_markdown(ctx, resolved, uris),
            resolution_lines(resolved, uris)[i],
        ),
{
    let k = phase_lines(ctx.ordinal, ctx.phase, ctx.instance).len() + 3 + i;
    assert(hover_lines(ctx, resolved, uris)[k] == resolution_lines(resolved, uris)[i]);
    lemma_hover_shows_line(ctx, resolved, uris, k);
}

/// The hover text tells which phase the specifier is of, and of which instance.
pub proof fn law_hover_tells_phase_and_instance(
    ctx: index::ContextView,
    resolved: Result<Seq<targets::TargetView>, targets::UnresolvedView>,
    uris: Seq<Option<Seq<char>>>,
)
    ensures
        text::shows(
            hover_markdown(ctx, resolved, uris),
            match ctx.phase {
                Some(phase) => phase_title(phase),
                None => unknown_phase(ctx.ordinal),
            },
        ),
        text::shows(
            hover_markdown(ctx, resolved, uris),
            instance_line(ctx.instance, ctx.component),
        ),
{
    reveal_strlit("**Init phase** `");
    reveal_strlit("**Init phase** ordinal ");
    reveal_strlit(" — not a phase known to fpp-to-cpp (`Fpp.ToCpp.Phases` defines 0..12).");
    reveal_strlit("static, file scope");
    reveal_strlit("runs during `setup()`");
    reveal_strlit("runs during `teardown()`");
    reveal_strlit("**Instance** `");
    reveal_strlit("`");
    let lines = hover_lines(ctx, resolved, uris);
    let n = phase_lines(ctx.ordinal, ctx.phase, ctx.instance).len() as int;
    lemma_hover_shows_line(ctx, resolved, uris, 0);
    assert(lines[n + 1] == instance_line(ctx.instance, ctx.component));
    lemma_hover_shows_line(ctx, resolved, uris, n + 1);
}

/// The line on a target neither begins nor ends with whitespace.
proof fn lemma_target_line_is_trimmed(t: targets::TargetView, uri: Option<Seq<char>>)
    ensures
        text::is_trimmed(target_line(t, uri)),
{
    reveal_strlit("- `");
    reveal_strlit(")");
    reveal_strlit(" — snippet text not found, pointing at the phase section");
    reveal_strlit(
        " — **build cache may be stale** (generated file is older than this source; run `fprime-util build`)",
    );
    assert(target_line(t, uri)[0] == '-');
}

/// The hover text shows the line of every target, with its topology and the link to it.
pub proof fn law_hover_shows_every_target(
    ctx: index::ContextView,
    list: Seq<targets::TargetView>,
    uris: Seq<Option<Seq<char>>>,
    i: int,
)
    requires
        0 <= i < list.len() == uris.len(),
    ensures
        text::shows(
            hover_markdown(ctx, Ok(list), uris),
            target_line(list[i], uris[i]),
        ),
{
    lemma_target_line_is_trimmed(list[i], uris[i]);
    assert(resolution_lines(Ok(list), uris)[i + 2] == target_line(list[i], uris[i]));
    lemma_resolution_line(ctx, Ok(list), uris, i + 2);
}

/// The hover text shows the target of every topology that includes the instance and whose
/// generated file is found and can be read.
pub proof fn law_hover_shows_every_topology(
    fs: files::FileSystem,
    state: GlobalState,
    ctx: index::ContextView,
    uris: Seq<Option<Seq<char>>>,
    i: int,
)
    requires
        resolve::query_of(state, ctx) is Ok,
        resolve::resolution(fs, state, ctx) matches Ok(list) ==> uris.len() == list.len(),
        0 <= i < state.analysis.topology_map@.len(),
        topologies::includes(state.analysis.topology_map@[i], ctx.instance),
    ensures
        ({
            let resolved = resolve::resolution(fs, state, ctx);
            resolve::target_of(
                fs,
                resolve::query_of(state, ctx)->Ok_0,
                resolve::site_of(state.analysis.topology_map@[i]),
                resolve::source_time(fs, ctx.source_path),
            ) matches Some(t) ==> exists|j: int|
                0 <= j < uris.len() && text::shows(
                    hover_markdown(ctx, resolved, uris),
                    target_line(t, #[trigger] uris[j]),
                )
        }),
{
    resolve::law_every_topology_is_resolved(fs, state, ctx);
    let topology = state.analysis.topology_map@[i];
    assert(topologies::includes(topology, ctx.instance));
    if let Some(t) = resolve::target_of(
        fs,
        resolve::query_of(state, ctx)->Ok_0,
        resolve::site_of(topology),
        resolve::source_time(fs, ctx.source_path),
    ) {
        let list = resolve::resolution(fs, state, ctx)->Ok_0;
        let j = choose|j: int| 0 <= j < list.len() && list[j] == t;
        law_hover_shows_every_target(ctx, list, uris, j);
    }
}

/// The hover text warns of a target that is stale.
pub proof fn law_hover_warns_of_stale_targets(
    ctx: index::ContextView,
    list: Seq<targets::TargetView>,
    uris: Seq<Option<Seq<char>>>,
    i: int,
)
    requires
        0 <= i < list.len() == uris.len(),
        list[i].stale,
    ensures
        text::shows(
            hover_markdown(ctx, Ok(list), uris),
            " — **build cache may be stale** (generated file is older than this source; run `fprime-util build`)"@,
        ),
{
    let warning =
        " — **build cache may be stale** (generated file is older than this source; run `fprime-util build`)"@;
    let fresh = targets::TargetView { stale: false, ..list[i] };
    let line = target_line(list[i], uris[i]);
    assert(line == target_line(fresh, uris[i]) + warning);
    text::lemma_shows_itself(warning);
    text::lemma_shows_in_more(target_line(fresh, uris[i]), warning, Seq::empty(), warning);
    assert(target_line(fresh, uris[i]) + warning + Seq::<char>::empty() =~= line);
    law_hover_shows_every_target(ctx, list, uris, i);
    text::lemma_shows_is_transitive(hover_markdown(ctx, Ok(list), uris), line, warning);
}

/// Where nothing is generated, the hover text names every topology that was looked at.
pub proof fn law_hover_names_missing_topologies(
    ctx: index::ContextView,
    list: Seq<Seq<char>>,
    uris: Seq<Option<Seq<char>>>,
    i: int,
)
    requires
        0 <= i < list.len(),
    ensures
        text::shows(
            hover_markdown(ctx, Err(targets::UnresolvedView::NotGenerated(list)), uris),
            "`"@ + list[i] + "`"@,
        ),
{
    reveal_strlit("**Generated code**: no `TopologyAc` file found in the build cache for ");
    reveal_strlit(" — run `fprime-util generate`/`build`.");
    let resolved: Result<Seq<targets::TargetView>, targets::UnresolvedView> = Err(
        targets::UnresolvedView::NotGenerated(list),
    );
    let before = "**Generated code**: no `TopologyAc` file found in the build cache for "@;
    let after = " — run `fprime-util generate`/`build`."@;
    let all = text::join(quoted(list), ", "@);
    let line = before + all + after;
    assert(resolution_lines(resolved, uris)[0] == line);
    assert(line[0] == before[0] && line.last() == after.last());
    lemma_resolution_line(ctx, resolved, uris, 0);
    text::lemma_join_shows(quoted(list), ", "@, i);
    text::lemma_shows_in_more(before, all, after, quoted(list)[i]);
    text::lemma_shows_is_transitive(
        hover_markdown(ctx, resolved, uris),
        line,
        quoted(list)[i],
    );
}

/// The lines on the phase and the instance.
spec fn head_lines(ctx: index::ContextView) -> Seq<Seq<char>> {
    phase_lines(ctx.ordinal, ctx.phase, ctx.instance) + seq![
        Seq::empty(),
        instance_line(ctx.instance, ctx.component),
    ]
}

/// The text on the phase and the instance.
spec fn head_text(ctx: index::ContextView) -> Seq<char> {
    text::join(head_lines(ctx), "\n"@)
}

/// The text on the phase and the instance begins with an asterisk and ends with a backquote.
proof fn lemma_head_is_trimmed(ctx: index::ContextView)
    ensures
        text::is_trimmed(head_text(ctx)),
{
    reveal_strlit("**Init phase** `");
    reveal_strlit("**Init phase** ordinal ");
    reveal_strlit("`");
    let nl = "\n"@;
    let head = head_lines(ctx);
    let first = phase_lines(ctx.ordinal, ctx.phase, ctx.instance)[0];
    let last = instance_line(ctx.instance, ctx.component);
    assert(head =~= seq![first] + head.drop_first());
    text::lemma_join_splits(seq![first], head.drop_first(), nl);
    assert(head =~= head.drop_last() + seq![last]);
    text::lemma_join_splits(head.drop_last(), seq![last], nl);
    assert(text::join(seq![first], nl) == first);
    assert(text::join(seq![last], nl) == last);
    assert(first.len() > 0 && first[0] == '*');
    assert(last.len() > 0 && last.last() == '`');
    assert(head_text(ctx)[0] == '*');
    assert(head_text(ctx).last() == '`');
}

/// The lines on the phase and the instance neither begin nor end with whitespace, and stand in
/// front of those on the generated code.
proof fn lemma_head_comes_first(
    ctx: index::ContextView,
    resolved: Result<Seq<targets::TargetView>, targets::UnresolvedView>,
    uris: Seq<Option<Seq<char>>>,
)
    ensures
        text::is_trimmed(head_text(ctx)),
        head_text(ctx).is_prefix_of(hover_markdown(ctx, resolved, uris)),
        resolution_lines(resolved, uris).len() == 0 ==> hover_markdown(ctx, resolved, uris)
            == head_text(ctx),
        ({
            let code = text::join(resolution_lines(resolved, uris), "\n"@);
            resolution_lines(resolved, uris).len() > 0 && code.len() > 0 && !text::is_space(
                code.last(),
            ) ==> hover_markdown(ctx, resolved, uris) == head_text(ctx) + "\n\n"@ + code
        }),
{
    let head = head_lines(ctx);
    let code_lines = resolution_lines(resolved, uris);
    lemma_head_is_trimmed(ctx);
    assert(hover_lines(ctx, resolved, uris) =~= head + (seq![Seq::<char>::empty()] + code_lines));
    lemma_blank_line_between(head, code_lines);
}

/// Lines with a blank one between them and others, joined and without surrounding whitespace.
proof fn lemma_blank_line_between(head: Seq<Seq<char>>, others: Seq<Seq<char>>)
    requires
        head.len() > 0,
        text::is_trimmed(text::join(head, "\n"@)),
    ensures
        ({
            let front = text::join(head, "\n"@);
            let code = text::join(others, "\n"@);
            let whole = text::trim(
                text::join(head + (seq![Seq::<char>::empty()] + others), "\n"@),
            );
            &&& front.is_prefix_of(whole)
            &&& others.len() == 0 ==> whole == front
            &&& others.len() > 0 && code.len() > 0 && !text::is_space(code.last()) ==> whole
                == front + "\n\n"@ + code
        }),
{
    reveal_strlit("\n");
    reveal_strlit("\n\n");
    let nl = "\n"@;
    let blank = seq![Seq::<char>::empty()];
    let front = text::join(head, nl);
    text::lemma_join_splits(head, blank + others, nl);
    assert(text::join(blank, nl) =~= Seq::empty());
    if others.len() == 0 {
        assert(blank + others =~= blank);
        assert(front + nl + Seq::<char>::empty() =~= front + nl);
        text::lemma_trim_keeps_front(front, nl);
    } else {
        let code = text::join(others, nl);
        text::lemma_join_splits(blank, others, nl);
        let rest = "\n\n"@ + code;
        assert(front + nl + (Seq::<char>::empty() + nl + code) =~= front + rest);
        text::lemma_trim_keeps_front(front, rest);
        assert(front + rest =~= front + "\n\n"@ + code);
        if code.len() > 0 {
            assert(rest.last() == code.last());
        }
    }
}

/// What the hover text says of phase and instance does not hang on what the specifier was
/// resolved to: the text that there is without any target or reason stands in front of all.
pub proof fn law_hover_begins_alike(
    ctx: index::ContextView,
    resolved: Result<Seq<targets::TargetView>, targets::UnresolvedView>,
    uris: Seq<Option<Seq<char>>>,
    ordinal: int,
)
    ensures
        hover_markdown(
            ctx,
            Err(targets::UnresolvedView::UnknownPhase(ordinal)),
            uris,
        ).is_prefix_of(hover_markdown(ctx, resolved, uris)),
{
    lemma_head_comes_first(ctx, resolved, uris);
    lemma_head_comes_first(ctx, Err(targets::UnresolvedView::UnknownPhase(ordinal)), uris);
}

/// The first line of the hover text names the phase and its ordinal and tells when its code
/// runs: in `setup()`, in `teardown()`, or not at all where it is static. An unknown phase is
/// told by its ordinal alone.
pub proof fn law_hover_tells_when_the_phase_runs(
    ctx: index::ContextView,
    resolved: Result<Seq<targets::TargetView>, targets::UnresolvedView>,
    uris: Seq<Option<Seq<char>>>,
)
    ensures
        ({
            let shown = hover_markdown(ctx, resolved, uris);
            match ctx.phase {
                Some(phase) => {
                    let title = "**Init phase** `"@ + phase.name@
                        + "` — `Fpp.ToCpp.Phases` ordinal "@ + text::decimal(phase.ordinal as int)
                        + ", "@;
                    &&& phase.stage is Static ==> (title + "static, file scope"@
                        + "\n"@).is_prefix_of(shown)
                    &&& phase.stage is Setup ==> (title + "runs during `setup()`"@
                        + "\n"@).is_prefix_of(shown)
                    &&& phase.stage is Teardown ==> (title + "runs during `teardown()`"@
                        + "\n"@).is_prefix_of(shown)
                },
                None => ("**Init phase** ordinal "@ + text::decimal(ctx.ordinal)
                    + " — not a phase known to fpp-to-cpp (`Fpp.ToCpp.Phases` defines 0..12)."@
                    + "\n"@).is_prefix_of(shown),
            }
        }),
{
    let nl = "\n"@;
    let shown = hover_markdown(ctx, resolved, uris);
    let head = head_lines(ctx);
    lemma_head_comes_first(ctx, resolved, uris);
    assert(head =~= seq![head[0]] + head.drop_first());
    text::lemma_join_splits(seq![head[0]], head.drop_first(), nl);
    assert(text::join(seq![head[0]], nl) == head[0]);
    let line = head[0] + nl;
    assert(head_text(ctx).subrange(0, line.len() as int) =~= line);
    assert(line.is_prefix_of(head_text(ctx)));
    assert(shown.subrange(0, line.len() as int) =~= head_text(ctx).subrange(
        0,
        line.len() as int,
    )) by {
        assert(shown.subrange(0, head_text(ctx).len() as int) == head_text(ctx));
        assert forall|i: int| 0 <= i < line.len() implies shown[i] == head_text(ctx)[i] by {
            assert(shown.subrange(0, head_text(ctx).len() as int)[i] == shown[i]);
        }
    }
}

/// What the hover text says of a known phase and its instance: the first line, what the phase's
/// code is for, what code there is by default, where it is generated, and the instance with its
/// component where that is known, with a blank line between each two.
pub proof fn law_hover_tells_all_of_the_phase(
    ctx: index::ContextView,
    uris: Seq<Option<Seq<char>>>,
    ordinal: int,
)
    requires
        ctx.phase is Some,
    ensures
        ({
            let phase = ctx.phase->0;
            let gap = "\n\n"@;
            let first = "**Init phase** `"@ + phase.name@ + "` — `Fpp.ToCpp.Phases` ordinal "@
                + text::decimal(phase.ordinal as int) + ", "@ + (match phase.stage {
                Stage::Static => "static, file scope"@,
                Stage::Setup => "runs during `setup()`"@,
                Stage::Teardown => "runs during `teardown()`"@,
            });
            let place = "Generated into `"@ + phase.signature_text(names::cpp_name(ctx.instance))
                + "` in `<Top>"@ + (match phase.file {
                GeneratedFile::Hpp => "TopologyAc.hpp"@,
                GeneratedFile::Cpp => "TopologyAc.cpp"@,
            }) + "`."@;
            let instance = match ctx.component {
                Some(component) => "**Instance** `"@ + ctx.instance + "` : `"@ + component + "`"@,
                None => "**Instance** `"@ + ctx.instance + "`"@,
            };
            hover_markdown(ctx, Err(targets::UnresolvedView::UnknownPhase(ordinal)), uris) == first
                + gap + phase.description@ + gap + ("Default code: "@ + phase.default_code@) + gap
                + place + gap + instance
        }),
{
    reveal_strlit("\n");
    reveal_strlit("\n\n");
    let nl = "\n"@;
    let gap = "\n\n"@;
    let phase = ctx.phase->0;
    let all = head_lines(ctx);
    lemma_head_comes_first(ctx, Err(targets::UnresolvedView::UnknownPhase(ordinal)), uris);
    assert(all.len() == 9);
    lemma_join_step(all, nl, 0);
    lemma_join_step(all, nl, 1);
    lemma_join_step(all, nl, 2);
    lemma_join_step(all, nl, 3);
    lemma_join_step(all, nl, 4);
    lemma_join_step(all, nl, 5);
    lemma_join_step(all, nl, 6);
    lemma_join_step(all, nl, 7);
    lemma_join_step(all, nl, 8);
    assert(all.take(9) =~= all);
    let (a, b, c, d) = (all[0], all[2], all[4], all[6]);
    let empty = Seq::<char>::empty();
    assert(all[1] == empty && all[3] == empty && all[5] == empty && all[7] == empty);
    let j1 = text::join(all.take(1), nl);
    let j3 = text::join(all.take(3), nl);
    let j5 = text::join(all.take(5), nl);
    let j7 = text::join(all.take(7), nl);
    assert(j1 == a);
    assert(j1 + nl + empty + nl + b =~= j1 + gap + b);
    assert(j3 + nl + empty + nl + c =~= j3 + gap + c);
    assert(j5 + nl + empty + nl + d =~= j5 + gap + d);
    assert(j7 + nl + empty + nl + all[8] =~= j7 + gap + all[8]);
}

/// What the hover text says of an unknown phase and its instance.
pub proof fn law_hover_tells_an_unknown_phase(
    ctx: index::ContextView,
    uris: Seq<Option<Seq<char>>>,
    ordinal: int,
)
    requires
        ctx.phase is None,
    ensures
        hover_markdown(ctx, Err(targets::UnresolvedView::UnknownPhase(ordinal)), uris)
            == "**Init phase** ordinal "@ + text::decimal(ctx.ordinal)
            + " — not a phase known to fpp-to-cpp (`Fpp.ToCpp.Phases` defines 0..12)."@ + "\n\n"@ + (
        match ctx.component {
            Some(component) => "**Instance** `"@ + ctx.instance + "` : `"@ + component + "`"@,
            None => "**Instance** `"@ + ctx.instance + "`"@,
        }),
{
    reveal_strlit("\n");
    reveal_strlit("\n\n");
    let nl = "\n"@;
    let all = head_lines(ctx);
    lemma_head_comes_first(ctx, Err(targets::UnresolvedView::UnknownPhase(ordinal)), uris);
    assert(all.len() == 3);
    lemma_join_step(all, nl, 0);
    lemma_join_step(all, nl, 1);
    lemma_join_step(all, nl, 2);
    assert(all.take(3) =~= all);
    let j1 = text::join(all.take(1), nl);
    let empty = Seq::<char>::empty();
    assert(all[1] == empty);
    assert(j1 + nl + empty + nl + all[2] =~= j1 + "\n\n"@ + all[2]);
}

proof fn lemma_join_step(parts: Seq<Seq<char>>, sep: Seq<char>, k: int)
    requires
        0 <= k < parts.len(),
    ensures
        text::join(parts.take(k + 1), sep) == (if k == 0 {
            parts[0]
        } else {
            text::join(parts.take(k), sep) + sep + parts[k]
        }),
{
    assert(parts.take(k + 1) =~= parts.take(k).push(parts[k]));
    text::law_join_puts_a_separator_between(parts.take(k), sep, parts[k]);
}

/// Each reason for having no target is told in its own words, after what is said of phase and
/// instance. Where nothing is generated, the names of the topologies are given in their order.
pub proof fn law_hover_tells_the_reason(
    ctx: index::ContextView,
    uris: Seq<Option<Seq<char>>>,
    ordinal: int,
    list: Seq<Seq<char>>,
)
    ensures
        ({
            let before = hover_markdown(
                ctx,
                Err(targets::UnresolvedView::UnknownPhase(ordinal)),
                uris,
            ) + "\n\n"@;
            &&& hover_markdown(ctx, Err(targets::UnresolvedView::NoTopology), uris) == before
                + "**Generated code**: instance is not part of any topology."@
            &&& hover_markdown(ctx, Err(targets::UnresolvedView::NoBuildCache), uris) == before
                + "**Generated code**: no build cache configured (set `buildCache` in `.fpp-lsp`)."@
            &&& hover_markdown(ctx, Err(targets::UnresolvedView::NotGenerated(list)), uris) == before
                + ("**Generated code**: no `TopologyAc` file found in the build cache for "@
                + text::join(list.map_values(|name: Seq<char>| "`"@ + name + "`"@), ", "@)
                + " — run `fprime-util generate`/`build`."@)
        }),
{
    reveal_strlit("**Generated code**: instance is not part of any topology.");
    reveal_strlit(
        "**Generated code**: no build cache configured (set `buildCache` in `.fpp-lsp`).",
    );
    reveal_strlit(" — run `fprime-util generate`/`build`.");
    lemma_head_comes_first(ctx, Err(targets::UnresolvedView::UnknownPhase(ordinal)), uris);
    lemma_head_comes_first(ctx, Err(targets::UnresolvedView::NoTopology), uris);
    lemma_head_comes_first(ctx, Err(targets::UnresolvedView::NoBuildCache), uris);
    lemma_head_comes_first(ctx, Err(targets::UnresolvedView::NotGenerated(list)), uris);
    assert(quoted(list) =~= list.map_values(|name: Seq<char>| "`"@ + name + "`"@));
    let line = "**Generated code**: no `TopologyAc` file found in the build cache for "@
        + text::join(quoted(list), ", "@) + " — run `fprime-util generate`/`build`."@;
    assert(line.last() == '.');
}

/// The targets are told one line each, in their order, after what is said of phase and instance
/// and a heading.
pub proof fn law_hover_tells_the_targets_in_order(
    ctx: index::ContextView,
    list: Seq<targets::TargetView>,
    uris: Seq<Option<Seq<char>>>,
    t: targets::TargetView,
    uri: Option<Seq<char>>,
    ordinal: int,
)
    requires
        uris.len() == list.len(),
    ensures
        hover_markdown(ctx, Ok(list.push(t)), uris.push(uri)) == (if list.len() == 0 {
            hover_markdown(ctx, Err(targets::UnresolvedView::UnknownPhase(ordinal)), uris)
                + "\n\n"@ + (
            "**Generated code** (Ctrl+click the `phase` keyword or the code to jump)"@ + "\n\n"@
                + target_line(t, uri))
        } else {
            hover_markdown(ctx, Ok(list), uris) + "\n"@ + target_line(t, uri)
        }),
{
    let nl = "\n"@;
    let gap = "\n\n"@;
    let (more, more_uris) = (list.push(t), uris.push(uri));
    let line = target_line(t, uri);
    let before = resolution_lines(Ok(list), uris);
    let old_code = text::join(before, nl);
    lemma_target_lines_grow(list, uris, t, uri);
    lemma_head_comes_first(ctx, Ok(more), more_uris);
    lemma_head_comes_first(ctx, Err(targets::UnresolvedView::UnknownPhase(ordinal)), uris);
    lemma_head_comes_first(ctx, Ok(list), uris);
    if list.len() == 0 {
        lemma_first_target_line(uris, line);
    } else {
        assert(head_text(ctx) + gap + (old_code + nl + line) =~= head_text(ctx) + gap + old_code
            + nl + line);
    }
}

/// One more target is one more line on the generated code, and that ends with no whitespace.
proof fn lemma_target_lines_grow(
    list: Seq<targets::TargetView>,
    uris: Seq<Option<Seq<char>>>,
    t: targets::TargetView,
    uri: Option<Seq<char>>,
)
    requires
        uris.len() == list.len(),
    ensures
        ({
            let before = text::join(resolution_lines(Ok(list), uris), "\n"@);
            let lines = resolution_lines(Ok(list.push(t)), uris.push(uri));
            let code = text::join(lines, "\n"@);
            &&& lines.len() > 0
            &&& code == before + "\n"@ + target_line(t, uri)
            &&& code.len() > 0 && !text::is_space(code.last())
            &&& list.len() > 0 ==> before.len() > 0 && !text::is_space(before.last())
        }),
    decreases list.len(),
{
    let nl = "\n"@;
    let line = target_line(t, uri);
    let before = resolution_lines(Ok(list), uris);
    let after = resolution_lines(Ok(list.push(t)), uris.push(uri));
    lemma_target_line_is_trimmed(t, uri);
    assert(target_lines(list.push(t), uris.push(uri), (list.len() + 1) as int) =~= target_lines(
        list,
        uris,
        list.len() as int,
    ).push(line));
    assert(after =~= before.push(line));
    text::law_join_puts_a_separator_between(before, nl, line);
    assert(text::join(after, nl).last() == line.last());
    if list.len() > 0 {
        lemma_target_lines_grow(list.drop_last(), uris.drop_last(), list.last(), uris.last());
        assert(list.drop_last().push(list.last()) =~= list);
        assert(uris.drop_last().push(uris.last()) =~= uris);
    }
}

/// The first target comes after the heading and a blank line.
proof fn lemma_first_target_line(uris: Seq<Option<Seq<char>>>, line: Seq<char>)
    ensures
        text::join(resolution_lines(Ok(Seq::empty()), uris), "\n"@) + "\n"@ + line
            == "**Generated code** (Ctrl+click the `phase` keyword or the code to jump)"@ + "\n\n"@
            + line,
{
    reveal_strlit("\n");
    reveal_strlit("\n\n");
    let nl = "\n"@;
    let header = "**Generated code** (Ctrl+click the `phase` keyword or the code to jump)"@;
    let before = resolution_lines(Ok(Seq::empty()), uris);
    assert(before =~= seq![header].push(Seq::empty()));
    text::law_join_puts_a_separator_between(seq![header], nl, Seq::empty());
    assert(text::join(seq![header], nl) == header);
    assert(header + nl + Seq::<char>::empty() + nl + line =~= header + "\n\n"@ + line);
}

/// The line on a target names the topology and links to the line of the file, counted from one.
/// Where the snippet's text was not found, or the target is stale, the line goes on to say so.
pub proof fn law_target_line_reads(t: targets::TargetView, uri: Option<Seq<char>>)
    ensures
        ({
            let plain = targets::TargetView { exact: true, stale: false, ..t };
            let fresh = targets::TargetView { stale: false, ..t };
            let name = match path::name_of(t.path) {
                Some(name) => name,
                None => Seq::empty(),
            };
            let address = match uri {
                Some(uri) => uri,
                None => Seq::empty(),
            };
            let number = text::decimal(t.line + 1);
            &&& target_line(plain, uri) == "- `"@ + t.topology + "` → ["@ + name + ":"@ + number
                + "]("@ + address + "#L"@ + number + ")"@
            &&& !t.exact ==> target_line(fresh, uri) == target_line(plain, uri)
                + " — snippet text not found, pointing at the phase section"@
            &&& t.exact ==> target_line(fresh, uri) == target_line(plain, uri)
            &&& t.stale ==> target_line(t, uri) == target_line(fresh, uri)
                + " — **build cache may be stale** (generated file is older than this source; run `fprime-util build`)"@
            &&& !t.stale ==> target_line(t, uri) == target_line(fresh, uri)
        }),
{
}

/// Whether the targets can be shown: each has an entry in `uris`, and a line after its own.
pub open spec fn is_showable(
    resolved: Result<Vec<GeneratedTarget>, Unresolved>,
    uris: Seq<Option<String>>,
) -> bool {
    resolved matches Ok(list) ==> {
        &&& uris.len() == list@.len()
        &&& forall|i: int| 0 <= i < list@.len() ==> (#[trigger] list@[i]).line < u32::MAX
    }
}

/// The line on a target, with a link to it.
fn show_target(target: &GeneratedTarget, uri: &Option<String>) -> (r: String)
    requires
        target.line < u32::MAX,
    ensures
        r@ == target_line(target@, text::optional(*uri)),
{
    let address: &str = match uri {
        Some(uri) => uri.as_str(),
        None => "",
    };
    proof {
        reveal_strlit("");
        assert(""@ =~= Seq::<char>::empty());
    }
    let line: String = to_decimal(target.line as i128 + 1);
    let mut r: String = "- `".to_string();
    r.append(target.topology.as_str());
    r.append("` → [");
    r.append(target.file_name().as_str());
    r.append(":");
    r.append(line.as_str());
    r.append("](");
    r.append(address);
    r.append("#L");
    r.append(line.as_str());
    r.append(")");
    if !target.exact {
        r.append(" — snippet text not found, pointing at the phase section");
    }
    if target.stale {
        r.append(
            " — **build cache may be stale** (generated file is older than this source; run `fprime-util build`)",
        );
    }
    r
}

/// The lines on the targets.
fn show_targets(list: &Vec<GeneratedTarget>, uris: &Vec<Option<String>>) -> (r: Vec<String>)
    requires
        uris@.len() == list@.len(),
        forall|i: int| 0 <= i < list@.len() ==> (#[trigger] list@[i]).line < u32::MAX,
    ensures
        text::texts(r@) == target_lines(
            targets::target_views(list@),
            optional_texts(uris@),
            list@.len() as int,
        ),
{
    let mut r: Vec<String> = Vec::new();
    let mut i: usize = 0;
    while i < list.len()
        invariant
            i <= list@.len() == uris@.len(),
            r@.len() == i,
            forall|k: int| 0 <= k < list@.len() ==> (#[trigger] list@[k]).line < u32::MAX,
            forall|k: int|
                0 <= k < i ==> (#[trigger] r@[k])@ == target_line(
                    list@[k]@,
                    text::optional(uris@[k]),
                ),
        decreases list@.len() - i,
    {
        r.push(show_target(&list[i], &uris[i]));
        i += 1;
    }
    assert(text::texts(r@) =~= target_lines(
        targets::target_views(list@),
        optional_texts(uris@),
        list@.len() as int,
    ));
    r
}

/// The names, each between backquotes.
fn quote(list: &Vec<String>) -> (r: Vec<String>)
    ensures
        text::texts(r@) == quoted(text::texts(list@)),
{
    let mut r: Vec<String> = Vec::new();
    let mut i: usize = 0;
    while i < list.len()
        invariant
            i <= list@.len(),
            r@.len() == i,
            forall|k: int| 0 <= k < i ==> (#[trigger] r@[k])@ == "`"@ + list@[k]@ + "`"@,
        decreases list@.len() - i,
    {
        r.push("`".to_string().concat(list[i].as_str()).concat("`"));
        i += 1;
    }
    assert(text::texts(r@) =~= quoted(text::texts(list@)));
    r
}

/// The lines on the phase.
fn show_phase(ctx: &PhaseContext) -> (r: Vec<String>)
    ensures
        text::texts(r@) == phase_lines(
            ctx.ordinal as int,
            ctx.phase,
            ctx.instance_qualified_name@,
        ),
{
    let mut r: Vec<String> = Vec::new();
    match ctx.phase {
        Some(phase) => {
            let stage: &str = match phase.stage {
                Stage::Static => "static, file scope",
                Stage::Setup => "runs during `setup()`",
                Stage::Teardown => "runs during `teardown()`",
            };
            let mut title: String = "**Init phase** `".to_string();
            title.append(phase.name);
            title.append("` — `Fpp.ToCpp.Phases` ordinal ");
            title.append(to_decimal(phase.ordinal).as_str());
            title.append(", ");
            title.append(stage);
            let file: &str = match phase.file {
                GeneratedFile::Hpp => "TopologyAc.hpp",
                GeneratedFile::Cpp => "TopologyAc.cpp",
            };
            let cpp_name: String = instance_cpp_name(ctx.instance_qualified_name.as_str());
            let mut destination: String = "Generated into `".to_string();
            destination.append(phase.signature(cpp_name.as_str()).as_str());
            destination.append("` in `<Top>");
            destination.append(file);
            destination.append("`.");
            r.push(title);
            r.push(String::new());
            r.push(phase.description.to_string());
            r.push(String::new());
            r.push("Default code: ".to_string().concat(phase.default_code));
            r.push(String::new());
            r.push(destination);
        },
        None => {
            let mut title: String = "**Init phase** ordinal ".to_string();
            title.append(to_decimal(ctx.ordinal).as_str());
            title.append(
                " — not a phase known to fpp-to-cpp (`Fpp.ToCpp.Phases` defines 0..12).",
            );
            r.push(title);
        },
    }
    assert(text::texts(r@) =~= phase_lines(
        ctx.ordinal as int,
        ctx.phase,
        ctx.instance_qualified_name@,
    ));
    r
}

/// The lines on the generated code.
fn show_resolution(
    resolved: &Result<Vec<GeneratedTarget>, Unresolved>,
    uris: &Vec<Option<String>>,
) -> (r: Vec<String>)
    requires
        is_showable(*resolved, uris@),
    ensures
        text::texts(r@) == resolution_lines(
            targets::resolution_view(*resolved),
            optional_texts(uris@),
        ),
{
    let mut r: Vec<String> = Vec::new();
    match resolved {
        Ok(list) => {
            r.push(
                "**Generated code** (Ctrl+click the `phase` keyword or the code to jump)".to_string(),
            );
            r.push(String::new());
            let mut lines: Vec<String> = show_targets(list, uris);
            let ghost shown = text::texts(lines@);
            let ghost before = r@;
            r.append(&mut lines);
            assert(text::texts(r@) =~= text::texts(before) + shown);
        },
        Err(Unresolved::UnknownPhase(_)) => {},
        Err(Unresolved::NoTopology) => {
            r.push("**Generated code**: instance is not part of any topology.".to_string());
        },
        Err(Unresolved::NoBuildCache) => {
            r.push(
                "**Generated code**: no build cache configured (set `buildCache` in `.fpp-lsp`).".to_string(),
            );
        },
        Err(Unresolved::NotGenerated(list)) => {
            let mut line: String =
                "**Generated code**: no `TopologyAc` file found in the build cache for ".to_string();
            line.append(joined(&quote(list), ", ").as_str());
            line.append(" — run `fprime-util generate`/`build`.");
            r.push(line);
        },
    }
    assert(text::texts(r@) =~= resolution_lines(
        targets::resolution_view(*resolved),
        optional_texts(uris@),
    ));
    r
}

/// The hover text of an init specifier of which `ctx` is known and that was resolved to
/// `resolved`. `uris` holds, for each target, the file URI of its path if it has one.
pub fn hover_text(
    ctx: &PhaseContext,
    resolved: &Result<Vec<GeneratedTarget>, Unresolved>,
    uris: &Vec<Option<String>>,
) -> (r: String)
    requires
        is_showable(*resolved, uris@),
    ensures
        r@ == hover_markdown(
            ctx@,
            targets::resolution_view(*resolved),
            optional_texts(uris@),
        ),
{
    let mut md: Vec<String> = show_phase(ctx);
    let ghost phase_part = text::texts(md@);
    let mut instance: String = "**Instance** `".to_string();
    instance.append(ctx.instance_qualified_name.as_str());
    match &ctx.component_qualified_name {
        Some(component) => {
            instance.append("` : `");
            instance.append(component.as_str());
            instance.append("`");
        },
        None => {
            instance.append("`");
        },
    }
    md.push(String::new());
    md.push(instance);
    md.push(String::new());
    let mut code_lines: Vec<String> = show_resolution(resolved, uris);
    let ghost code_part = text::texts(code_lines@);
    md.append(&mut code_lines);
    assert(text::texts(md@) =~= phase_part + seq![
        Seq::empty(),
        instance@,
        Seq::empty(),
    ] + code_part);
    trimmed(joined(&md, "\n").as_str())
}

/// Hover contents for an init specifier that was resolved to `resolved`. `uris` holds,
/// for each target, the file URI of its path if it has one.
pub fn hover_for_init_spec(
    state: &GlobalState,
    at: &InitSpecAt<'_>,
    resolved: &Result<Vec<GeneratedTarget>, Unresolved>,
    uris: &Vec<Option<String>>,
) -> (r: Option<Hover>)
    requires
        is_showable(*resolved, uris@),
    ensures
        match index::context_of(state.analysis, *at.spec, *at.instance) {
            Some(ctx) => r matches Some(hover) && hover.range == at.spec.range && hover.value@
                == hover_markdown(
                ctx,
                targets::resolution_view(*resolved),
                optional_texts(uris@),
            ),
            None => r is None,
        },
{
    let ctx: PhaseContext = phase_context(state, at)?;
    Some(Hover { value: hover_text(&ctx, resolved, uris), range: at.spec.range })
}

} // verus!
