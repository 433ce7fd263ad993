//! The places in generated files where the code of an init specifier landed.

use crate::index::{Position, Range};
use crate::uri::parse_uri;
use crate::{path, text, uri};
use vstd::prelude::*;

verus! {

/// A place in a document.
#[derive(Debug)]
pub struct Location {
    pub uri: String,
    pub range: Range,
}

/// A location in a generated topology file where an init snippet landed.
#[derive(Debug)]
pub struct GeneratedTarget {
    /// Fully qualified topology name (e.g. `Ref.Ref`).
    pub topology: String,
    pub path: String,
    /// Zero-based line.
    pub line: u32,
    /// `true` when the snippet text itself was found; `false` when we fell back
    /// to the phase section (function/namespace) or the top of the file.
    pub exact: bool,
    /// The generated file is older than the FPP source containing the snippet.
    pub stale: bool,
}

/// A generated target, as a value.
pub struct TargetView {
    pub topology: Seq<char>,
    pub path: Seq<char>,
    pub line: u32,
    pub exact: bool,
    pub stale: bool,
}

impl View for GeneratedTarget {
    type V = TargetView;

    open spec fn view(&self) -> TargetView {
        TargetView {
            topology: self.topology@,
            path: self.path@,
            line: self.line,
            exact: self.exact,
            stale: self.stale,
        }
    }
}

impl Clone for GeneratedTarget {
    fn clone(&self) -> (r: Self)
        ensures
            r@ == self@,
    {
        GeneratedTarget {
            topology: self.topology.clone(),
            path: self.path.clone(),
            line: self.line,
            exact: self.exact,
            stale: self.stale,
        }
    }
}

impl GeneratedTarget {
    /// The start of the target's line, as a range of no characters.
    pub open spec fn line_start(self) -> Range {
        let start = Position { line: self.line, character: 0 };
        Range { start, end: start }
    }

    /// The location of the target in the document of the given URI.
    pub fn location_in(&self, uri: String) -> (r: Location)
        ensures
            r.uri@ == uri@,
            r.range == self.line_start(),
            r.range.start.line == self.line && r.range.start.character == 0,
            r.range.end == r.range.start,
    {
        let pos: Position = Position { line: self.line, character: 0 };
        Location { uri, range: Range { start: pos, end: pos } }
    }

    /// The location of the target. `uri` is the file URI of its path, if it has one.
    pub fn location(&self, uri: Option<&str>) -> (r: Option<Location>)
        requires
            uri matches Some(u) ==> vstd::utf8::encode_utf8(u@).len() <= i32::MAX,
        ensures
            r is Some <==> (uri matches Some(u) && uri::is_uri(u@)),
            r matches Some(location) ==> {
                &&& location.uri@ == uri->0@
                &&& location.range == self.line_start()
                &&& location.range.start.line == self.line
                &&& location.range.start.character == 0
                &&& location.range.end == location.range.start
            },
    {
        let parsed: String = parse_uri(uri?)?;
        Some(self.location_in(parsed))
    }

    /// The name of the generated file; empty where the path does not end in a name.
    pub fn file_name(&self) -> (r: String)
        ensures
            r@ == (match path::name_of(self.path@) {
                Some(name) => name,
                None => Seq::empty(),
            }),
    {
        match path::file_name(self.path.as_str()) {
            Some(name) => name,
            None => String::new(),
        }
    }
}

/// Why no generated target could be produced.
#[derive(Debug, PartialEq, Eq)]
pub enum Unresolved {
    /// The phase ordinal is not a known one.
    UnknownPhase(i128),
    /// The instance is not part of any resolved topology.
    NoTopology,
    /// No build cache directory is configured.
    NoBuildCache,
    /// Topologies were found but none has a generated file in the build cache.
    NotGenerated(Vec<String>),
}

/// Why no generated target could be produced, as a value.
pub enum UnresolvedView {
    UnknownPhase(int),
    NoTopology,
    NoBuildCache,
    NotGenerated(Seq<Seq<char>>),
}

impl View for Unresolved {
    type V = UnresolvedView;

    open spec fn view(&self) -> UnresolvedView {
        match self {
            Unresolved::UnknownPhase(ordinal) => UnresolvedView::UnknownPhase(*ordinal as int),
            Unresolved::NoTopology => UnresolvedView::NoTopology,
            Unresolved::NoBuildCache => UnresolvedView::NoBuildCache,
            Unresolved::NotGenerated(names) => UnresolvedView::NotGenerated(
                text::texts(names@),
            ),
        }
    }
}

impl Clone for Unresolved {
    fn clone(&self) -> (r: Self)
        ensures
            r@ == self@,
    {
        match self {
            Unresolved::UnknownPhase(ordinal) => Unresolved::UnknownPhase(*ordinal),
            Unresolved::NoTopology => Unresolved::NoTopology,
            Unresolved::NoBuildCache => Unresolved::NoBuildCache,
            Unresolved::NotGenerated(names) => {
                let mut copy: Vec<String> = Vec::new();
                let mut i: usize = 0;
                while i < names.len()
                    invariant
                        i <= names@.len(),
                        copy@.len() == i,
                        forall|k: int| 0 <= k < i ==> (#[trigger] copy@[k])@ == names@[k]@,
                    decreases names@.len() - i,
                {
                    copy.push(names[i].clone());
                    i += 1;
                }
                assert(text::texts(copy@) =~= text::texts(names@));
                Unresolved::NotGenerated(copy)
            },
        }
    }
}

/// The values of a sequence of targets.
pub open spec fn target_views(targets: Seq<GeneratedTarget>) -> Seq<TargetView> {
    Seq::new(targets.len(), |i: int| targets[i]@)
}

/// The value of what a resolution came to.
pub open spec fn resolution_view(
    r: Result<Vec<GeneratedTarget>, Unresolved>,
) -> Result<Seq<TargetView>, UnresolvedView> {
    match r {
        Ok(targets) => Ok(target_views(targets@)),
        Err(why) => Err(why@),
    }
}

/// What a resolution came to is told whole: every target in its place with all that is known of
/// it, or the reason with the names that it gives.
pub proof fn law_resolution_is_told_whole(r: Result<Vec<GeneratedTarget>, Unresolved>)
    ensures
        match r {
            Ok(list) => resolution_view(r) matches Ok(views) && views.len() == list@.len() && forall|
                i: int,
            |
                #![trigger views[i]]
                0 <= i < list@.len() ==> {
                    &&& views[i].topology == list@[i].topology@
                    &&& views[i].path == list@[i].path@
                    &&& views[i].line == list@[i].line
                    &&& views[i].exact == list@[i].exact
                    &&& views[i].stale == list@[i].stale
                },
            Err(Unresolved::UnknownPhase(ordinal)) => resolution_view(r) == Err::<
                Seq<TargetView>,
                _,
            >(UnresolvedView::UnknownPhase(ordinal as int)),
            Err(Unresolved::NoTopology) => resolution_view(r) == Err::<Seq<TargetView>, _>(
                UnresolvedView::NoTopology,
            ),
            Err(Unresolved::NoBuildCache) => resolution_view(r) == Err::<Seq<TargetView>, _>(
                UnresolvedView::NoBuildCache,
            ),
            Err(Unresolved::NotGenerated(names)) => resolution_view(r) == Err::<Seq<TargetView>, _>(
                UnresolvedView::NotGenerated(names@.map_values(|name: String| name@)),
            ),
        },
{
    if let Err(Unresolved::NotGenerated(names)) = r {
        assert(text::texts(names@) =~= names@.map_values(|name: String| name@));
    }
}

} // verus!
