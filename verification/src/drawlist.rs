//! The display list's paint-ownership vocabulary: text paint ownership per
//! resolved glyph run, private owner slots of source-neutral products, and the
//! mask-source interpretation carried by mask scopes.

use vstd::prelude::*;
use crate::paint::{is_visible, visible_paints, Paint, Paints};

verus! {

/// Drawlist projection of a resolved mask-source interpretation.
#[derive(Debug, Clone, Copy, PartialEq, Eq, Hash, Structural)]
pub enum ResolvedMaskMode {
    Alpha,
    Luminance,
}

/// Product-local owner slot for a source-neutral glyphless frame.
#[derive(Debug, Clone, Copy, PartialEq, Eq, PartialOrd, Ord, Hash, Structural)]
pub struct GlyphlessOwnerSlot(u32);

impl GlyphlessOwnerSlot {
    pub closed spec fn spec_index(self) -> int {
        self.0 as int
    }

    pub fn new(value: u32) -> (slot: Self)
        ensures
            slot.spec_index() == value,
    {
        GlyphlessOwnerSlot(value)
    }

    /// The slot's position in its product's provenance table.
    pub fn index(self) -> (index: usize)
        ensures
            index == self.spec_index(),
    {
        self.0 as usize
    }
}

/// One attributed text run's own fills: `None` inherits the node's paints,
/// while an empty stack means explicit no ink.
#[derive(Debug, Clone, PartialEq, Eq)]
pub struct TextRun {
    pub fills: Option<Paints>,
}

/// What paint materialization reads of a text payload: `None` for uniform
/// text, or the attributed runs in source order.
#[derive(Debug, Clone, PartialEq, Eq)]
pub struct TextContent {
    pub runs: Option<Vec<TextRun>>,
}

/// Paint ownership for one resolved text layout.
///
/// An outer `None` denotes uniform text, while an attributed entry of `None`
/// inherits node paints and `Some([])` means explicit no ink. Keeping those
/// states distinct lets invalid attributed run ownership fail closed instead
/// of being mistaken for uniform-text fallback.
#[derive(Debug, Clone, PartialEq, Eq)]
pub struct TextPaints {
    pub node: Paints,
    pub runs: Option<Vec<Option<Paints>>>,
}

impl TextPaints {
    /// The paints of attributed run `index`, falling back to node paints.
    pub open spec fn run_paints(&self, index: int) -> Paints
        recommends
            self.runs is Some,
    {
        match self.runs.unwrap()@[index] {
            Some(paints) => paints,
            None => self.node,
        }
    }

    /// The paints owning glyphs from `source_run`, when ownership matches the
    /// authored topology.
    pub open spec fn spec_for_source_run(&self, source_run: Option<usize>) -> Option<Paints> {
        match (self.runs, source_run) {
            (None, None) => Some(self.node),
            (Some(runs), Some(index)) => if index < runs@.len() {
                Some(self.run_paints(index as int))
            } else {
                None
            },
            _ => None,
        }
    }

    /// Some owned paint stack is non-empty.
    pub open spec fn spec_has_visible_ink(&self) -> bool {
        match self.runs {
            None => self.node@.len() != 0,
            Some(runs) => exists|i: int| 0 <= i < runs@.len() && self.run_paints(i)@.len() != 0,
        }
    }

    /// Resolve paints only when glyph ownership matches the authored topology.
    pub fn for_source_run(&self, source_run: Option<usize>) -> (paints: Option<&Paints>)
        ensures
            match paints {
                Some(p) => self.spec_for_source_run(source_run) == Some(*p),
                None => self.spec_for_source_run(source_run) is None,
            },
    {
        match (&self.runs, source_run) {
            (None, None) => Some(&self.node),
            (Some(runs), Some(index)) => {
                if index < runs.len() {
                    match &runs[index] {
                        Some(paints) => Some(paints),
                        None => Some(&self.node),
                    }
                } else {
                    None
                }
            },
            _ => None,
        }
    }

    /// Whether any owned paint stack can paint glyphs.
    pub fn has_visible_ink(&self) -> (ink: bool)
        ensures
            ink == self.spec_has_visible_ink(),
    {
        match &self.runs {
            None => !self.node.is_empty(),
            Some(runs) => {
                let mut i: usize = 0;
                while i < runs.len()
                    invariant
                        i <= runs@.len(),
                        self.runs == Some(*runs),
                        forall|j: int| 0 <= j < i ==> self.run_paints(j)@.len() == 0,
                    decreases runs@.len() - i,
                {
                    let empty = match &runs[i] {
                        Some(paints) => paints.is_empty(),
                        None => self.node.is_empty(),
                    };
                    if !empty {
                        assert(self.run_paints(i as int)@.len() != 0);
                        return true;
                    }
                    i += 1;
                }
                false
            },
        }
    }
}

/// The visible part of a paint stack.
pub open spec fn visible_of(paints: Seq<Paint>) -> Seq<Paint> {
    paints.filter(|paint: Paint| is_visible(paint))
}

/// The visible part of a run's own fills, keeping inheritance explicit.
pub open spec fn visible_run(run: TextRun) -> Option<Seq<Paint>> {
    match run.fills {
        Some(paints) => Some(visible_of(paints@)),
        None => None,
    }
}

/// Materialize the visible paints owning each glyph run of `text`.
pub fn materialize_text_paints(text: &TextContent, node_fills: &Paints) -> (paints: TextPaints)
    ensures
        paints.node@ == visible_of(node_fills@),
        paints.runs is None <==> text.runs is None,
        text.runs matches Some(runs) ==> {
            &&& paints.runs.unwrap()@.len() == runs@.len()
            &&& forall|i: int|
                0 <= i < runs@.len() ==> match (#[trigger] paints.runs.unwrap()@[i], visible_run(runs@[i])) {
                    (Some(p), Some(v)) => p@ == v,
                    (None, None) => true,
                    _ => false,
                }
        },
{
    let runs = match &text.runs {
        None => None,
        Some(source) => {
            let mut out: Vec<Option<Paints>> = Vec::new();
            let mut i: usize = 0;
            while i < source.len()
                invariant
                    i <= source@.len(),
                    out@.len() == i,
                    forall|j: int|
                        0 <= j < i ==> match (#[trigger] out@[j], visible_run(source@[j])) {
                            (Some(p), Some(v)) => p@ == v,
                            (None, None) => true,
                            _ => false,
                        },
                decreases source@.len() - i,
            {
                let run = match &source[i].fills {
                    Some(fills) => Some(visible_paints(fills)),
                    None => None,
                };
                out.push(run);
                i += 1;
            }
            Some(out)
        },
    };
    TextPaints { node: visible_paints(node_fills), runs }
}

} // verus!
