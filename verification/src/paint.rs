//! The paint vocabulary that display lists and animation effects read: an
//! ordered bottom-to-top paint stack whose entries are singleton solids or
//! non-solid (gradient and image) paints.
//!
//! A solid paint contributes pixels when it is active and its color has a
//! non-zero alpha. A non-solid paint contributes pixels when it is active and
//! its resolved opacity is not zero.

use vstd::prelude::*;
use crate::drawlist::visible_of;

verus! {

/// A straight legacy-sRGB color packed as `0xAARRGGBB`.
#[derive(Debug, Clone, Copy, PartialEq, Eq, Hash, Structural)]
pub struct Color(pub u32);

impl Color {
    /// Opaque black.
    pub fn black() -> (color: Color)
        ensures
            color.0 == 0xFF00_0000,
    {
        Color(0xFF00_0000)
    }

    pub fn argb(self) -> (argb: u32)
        ensures
            argb == self.0,
    {
        self.0
    }

    pub open spec fn spec_alpha(self) -> u32 {
        self.0 / 0x100_0000
    }

    /// The alpha channel.
    pub fn alpha(self) -> (alpha: u32)
        ensures
            alpha == self.spec_alpha(),
            alpha < 256,
    {
        self.0 / 0x100_0000
    }
}

/// Separable and non-separable blend modes of a paint.
#[derive(Debug, Clone, Copy, PartialEq, Eq, Hash, Structural)]
pub enum BlendMode {
    Normal,
    Multiply,
    Screen,
    Overlay,
    Darken,
    Lighten,
    ColorDodge,
    ColorBurn,
    HardLight,
    SoftLight,
    Difference,
    Exclusion,
    Hue,
    Saturation,
    Color,
    Luminosity,
}

/// The non-solid paint families.
#[derive(Debug, Clone, Copy, PartialEq, Eq, Hash, Structural)]
pub enum NonSolidKind {
    LinearGradient,
    RadialGradient,
    SweepGradient,
    DiamondGradient,
    Image,
}

/// One solid paint.
#[derive(Debug, Clone, Copy, PartialEq, Eq, Hash, Structural)]
pub struct SolidPaint {
    pub color: Color,
    pub active: bool,
    pub blend_mode: BlendMode,
}

impl SolidPaint {
    /// An active, normal-blend solid.
    pub fn new(color: Color) -> (paint: Self)
        ensures
            paint == (SolidPaint { color, active: true, blend_mode: BlendMode::Normal }),
    {
        SolidPaint { color, active: true, blend_mode: BlendMode::Normal }
    }
}

/// One non-solid paint, carrying what composition and visibility read.
#[derive(Debug, Clone, Copy, PartialEq, Eq, Hash, Structural)]
pub struct NonSolidPaint {
    pub kind: NonSolidKind,
    pub active: bool,
    pub blend_mode: BlendMode,
    /// The paint's resolved opacity is exactly zero.
    pub fully_transparent: bool,
}

#[derive(Debug, Clone, Copy, PartialEq, Eq, Hash, Structural)]
pub enum Paint {
    Solid(SolidPaint),
    NonSolid(NonSolidPaint),
}

impl Paint {
    /// The paint can contribute pixels.
    pub open spec fn spec_visible(self) -> bool {
        match self {
            Paint::Solid(solid) => solid.active && solid.color.spec_alpha() != 0,
            Paint::NonSolid(paint) => paint.active && !paint.fully_transparent,
        }
    }

    pub fn visible(&self) -> (visible: bool)
        ensures
            visible == self.spec_visible(),
    {
        match self {
            Paint::Solid(solid) => solid.active && solid.color.alpha() != 0,
            Paint::NonSolid(paint) => paint.active && !paint.fully_transparent,
        }
    }
}

/// An ordered paint stack, bottom to top.
#[derive(Debug, Clone, Default, PartialEq, Eq, Hash)]
pub struct Paints {
    pub paints: Vec<Paint>,
}

impl View for Paints {
    type V = Seq<Paint>;

    open spec fn view(&self) -> Seq<Paint> {
        self.paints@
    }
}

impl Paints {
    pub fn new(paints: Vec<Paint>) -> (stack: Self)
        ensures
            stack@ == paints@,
    {
        Paints { paints }
    }

    /// The empty stack: no paint.
    pub fn empty() -> (stack: Self)
        ensures
            stack@ == Seq::<Paint>::empty(),
    {
        Paints { paints: Vec::new() }
    }

    /// One active, normal-blend solid of `color`.
    pub fn solid(color: Color) -> (stack: Self)
        ensures
            stack@ == seq![Paint::Solid(SolidPaint { color, active: true, blend_mode: BlendMode::Normal })],
    {
        let mut paints = Vec::new();
        paints.push(Paint::Solid(SolidPaint::new(color)));
        Paints { paints }
    }

    pub fn is_empty(&self) -> (empty: bool)
        ensures
            empty == (self@.len() == 0),
    {
        self.paints.len() == 0
    }

    pub fn len(&self) -> (len: usize)
        ensures
            len == self@.len(),
    {
        self.paints.len()
    }

    pub fn as_slice(&self) -> (paints: &[Paint])
        ensures
            paints@ == self@,
    {
        self.paints.as_slice()
    }
}

pub open spec fn is_visible(paint: Paint) -> bool {
    paint.spec_visible()
}

/// Materialize only paints that can contribute pixels. The stack is already
/// bottom-to-top; filtering preserves that relative order.
pub fn visible_paints(paints: &Paints) -> (visible: Paints)
    ensures
        visible@ == paints@.filter(|paint: Paint| is_visible(paint)),
{
    let mut out: Vec<Paint> = Vec::new();
    let mut i: usize = 0;
    while i < paints.paints.len()
        invariant
            i <= paints@.len(),
            out@ == paints@.take(i as int).filter(|paint: Paint| is_visible(paint)),
        decreases paints@.len() - i,
    {
        let paint = paints.paints[i];
        proof {
            reveal_with_fuel(Seq::<_>::filter, 1);
            assert(paints@.take(i + 1).drop_last() =~= paints@.take(i as int));
        }
        if paint.visible() {
            out.push(paint);
        }
        i += 1;
    }
    assert(paints@.take(paints@.len() as int) =~= paints@);
    Paints { paints: out }
}

/// The paint is enabled.
pub open spec fn enabled(paint: Paint) -> bool {
    match paint {
        Paint::Solid(solid) => solid.active,
        Paint::NonSolid(paint) => paint.active,
    }
}

/// The paint's resolved opacity is zero.
pub open spec fn transparent(paint: Paint) -> bool {
    match paint {
        Paint::Solid(solid) => solid.color.spec_alpha() == 0,
        Paint::NonSolid(paint) => paint.fully_transparent,
    }
}

/// A disabled paint, solid or not, never contributes pixels, nor does a
/// fully transparent one; an enabled paint with some opacity always does.
pub proof fn lemma_visibility_is_enabled_ink(paint: Paint)
    ensures
        !enabled(paint) ==> !paint.spec_visible(),
        transparent(paint) ==> !paint.spec_visible(),
        enabled(paint) && !transparent(paint) ==> paint.spec_visible(),
{
}

/// The visible part of a stack keeps exactly its enabled paints with some
/// opacity: everything kept is enabled and not transparent, everything
/// enabled and not transparent is kept, and nothing disabled is kept.
pub proof fn lemma_visible_paints_keep_enabled_ink(paints: Seq<Paint>)
    ensures
        forall|i: int|
            0 <= i < visible_of(paints).len() ==> enabled(
                #[trigger] visible_of(paints)[i],
            ) && !transparent(visible_of(paints)[i]),
        forall|i: int|
            0 <= i < paints.len() && enabled(#[trigger] paints[i]) && !transparent(paints[i]) ==> visible_of(paints).contains(paints[i]),
        forall|p: Paint| !enabled(p) ==> !visible_of(paints).contains(p),
{
    let pred = |paint: Paint| is_visible(paint);
    let kept = paints.filter(pred);
    assert forall|i: int| 0 <= i < kept.len() implies enabled(#[trigger] kept[i]) && !transparent(kept[i]) by {
        paints.lemma_filter_pred(pred, i);
        lemma_visibility_is_enabled_ink(kept[i]);
    }
    assert forall|i: int| 0 <= i < paints.len() && enabled(#[trigger] paints[i]) && !transparent(paints[i]) implies kept.contains(
        paints[i],
    ) by {
        lemma_visibility_is_enabled_ink(paints[i]);
        paints.lemma_filter_contains(pred, i);
    }
    assert forall|p: Paint| !enabled(p) implies !kept.contains(p) by {
        if kept.contains(p) {
            let i = choose|i: int| 0 <= i < kept.len() && kept[i] == p;
            paints.lemma_filter_pred(pred, i);
            lemma_visibility_is_enabled_ink(p);
        }
    }
}

} // verus!
