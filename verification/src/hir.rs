//! The intermediate representation of a pattern.
//!
//! A pattern is a tree of nodes. Each node owns its children, so a pattern is
//! taken apart and put together again without copying.

use crate::class::{
    byte_ranges, char_ranges, class_bytes_empty, class_bytes_push, lemma_all_bytes,
};
use regex_syntax::hir::{ClassBytes, ClassUnicode, Look};
use vstd::prelude::*;

verus! {

/// `regex_syntax::hir::Look`, a look-around assertion. The library carries it
/// through and never looks inside.
#[verifier::external_type_specification]
#[verifier::external_body]
pub struct ExLook(regex_syntax::hir::Look);

/// A class of characters: either of Unicode scalar values or of bytes.
#[derive(Debug, PartialEq, Eq)]
pub enum Class {
    Unicode(ClassUnicode),
    Bytes(ClassBytes),
}

/// A repetition of a sub-expression.
#[derive(Debug, PartialEq, Eq)]
pub struct Repetition {
    /// The least number of times the sub-expression must match.
    pub min: u32,
    /// The greatest number of times it may match; `None` is no limit.
    pub max: Option<u32>,
    /// Whether the repetition takes as much input as it can.
    pub greedy: bool,
    /// The expression that is repeated.
    pub sub: Box<Hir>,
}

/// A capturing group.
#[derive(Debug, PartialEq, Eq)]
pub struct Capture {
    pub index: u32,
    pub name: Option<String>,
    pub sub: Box<Hir>,
}

/// The kind of a node, with its children.
#[derive(Debug, PartialEq, Eq)]
pub enum HirKind {
    /// The expression that matches the empty string.
    Empty,
    /// A sequence of bytes that matches itself.
    Literal(Vec<u8>),
    /// One character out of a class.
    Class(Class),
    /// A look-around assertion.
    Look(Look),
    /// A repetition.
    Repetition(Repetition),
    /// A capturing group.
    Capture(Capture),
    /// Sub-expressions that match one after the other.
    Concat(Vec<Hir>),
    /// Sub-expressions of which one matches.
    Alternation(Vec<Hir>),
}

/// A node of the pattern tree.
#[derive(Debug, PartialEq, Eq)]
pub struct Hir {
    pub(crate) kind: HirKind,
}

/// The mathematical value of a class: its ranges.
pub enum ClassView {
    Unicode(Seq<(char, char)>),
    Bytes(Seq<(u8, u8)>),
}

/// The mathematical value of a pattern tree.
pub enum HirView {
    Empty,
    Literal(Seq<u8>),
    Class(ClassView),
    Look(Look),
    Repetition { min: u32, max: Option<u32>, greedy: bool, sub: Box<HirView> },
    Capture { index: u32, name: Option<Seq<char>>, sub: Box<HirView> },
    Concat(Seq<HirView>),
    Alternation(Seq<HirView>),
}

impl View for Class {
    type V = ClassView;

    open spec fn view(&self) -> ClassView {
        match *self {
            Class::Unicode(c) => ClassView::Unicode(char_ranges(c)),
            Class::Bytes(c) => ClassView::Bytes(byte_ranges(c)),
        }
    }
}

/// The value of the node `hir`.
pub closed spec fn hir_view(hir: Hir) -> HirView
    decreases hir,
{
    kind_view(hir.kind)
}

/// The value of a node of kind `kind`.
pub open spec fn kind_view(kind: HirKind) -> HirView
    decreases kind,
{
    match kind {
        HirKind::Empty => HirView::Empty,
        HirKind::Literal(bytes) => HirView::Literal(bytes@),
        HirKind::Class(class) => HirView::Class(class@),
        HirKind::Look(look) => HirView::Look(look),
        HirKind::Repetition(rep) => HirView::Repetition {
            min: rep.min,
            max: rep.max,
            greedy: rep.greedy,
            sub: Box::new(hir_view(*rep.sub)),
        },
        HirKind::Capture(cap) => HirView::Capture {
            index: cap.index,
            name: match cap.name {
                Some(n) => Some(n@),
                None => None,
            },
            sub: Box::new(hir_view(*cap.sub)),
        },
        HirKind::Concat(subs) => HirView::Concat(
            Seq::new(
                subs.len() as nat,
                |i: int|
                    if 0 <= i < subs.len() {
                        hir_view(subs[i])
                    } else {
                        HirView::Empty
                    },
            ),
        ),
        HirKind::Alternation(subs) => HirView::Alternation(
            Seq::new(
                subs.len() as nat,
                |i: int|
                    if 0 <= i < subs.len() {
                        hir_view(subs[i])
                    } else {
                        HirView::Empty
                    },
            ),
        ),
    }
}

impl View for Hir {
    type V = HirView;

    open spec fn view(&self) -> HirView {
        hir_view(*self)
    }
}

impl View for HirKind {
    type V = HirView;

    open spec fn view(&self) -> HirView {
        kind_view(*self)
    }
}

/// The values of the nodes in `subs`, in the same order.
pub open spec fn hir_views(subs: Seq<Hir>) -> Seq<HirView> {
    Seq::new(subs.len(), |i: int| hir_view(subs[i]))
}

/// What a concatenation of `parts` is: nothing gives the empty expression, a
/// single part stands for itself, and two or more make a concatenation node.
pub open spec fn concat_view(parts: Seq<HirView>) -> HirView {
    if parts.len() == 0 {
        HirView::Empty
    } else if parts.len() == 1 {
        parts[0]
    } else {
        HirView::Concat(parts)
    }
}

/// Tells whether `hir` is a value that a node can have: a concatenation has
/// at least two parts.
pub open spec fn proper(hir: HirView) -> bool {
    hir matches HirView::Concat(parts) ==> parts.len() >= 2
}

/// The value of a concatenation node is the concatenation of the values of
/// its children, and likewise for an alternation.
pub proof fn lemma_view_of_children(subs: Vec<Hir>)
    ensures
        kind_view(HirKind::Concat(subs)) == HirView::Concat(hir_views(subs@)),
        kind_view(HirKind::Alternation(subs)) == HirView::Alternation(hir_views(subs@)),
{
    assert(kind_view(HirKind::Concat(subs))->Concat_0 =~= hir_views(subs@));
    assert(kind_view(HirKind::Alternation(subs))->Alternation_0 =~= hir_views(subs@));
}

/// The value of a well-formed node is proper.
proof fn lemma_node_proper(hir: Hir)
    requires
        hir.well_formed(),
    ensures
        proper(hir@),
{
    if let HirKind::Concat(subs) = hir.kind {
        lemma_view_of_children(subs);
    }
}

impl Hir {
    /// A concatenation node has at least two children: a shorter one is
    /// never built.
    #[verifier::type_invariant]
    pub closed spec fn well_formed(&self) -> bool {
        self.kind matches HirKind::Concat(subs) ==> subs.len() >= 2
    }

    /// The kind of this node.
    pub fn kind(&self) -> (kind: &HirKind)
        ensures
            kind@ == self@,
            proper(self@),
    {
        proof {
            use_type_invariant(self);
            lemma_node_proper(*self);
        }
        &self.kind
    }

    /// Takes the node apart and hands out its kind.
    pub fn into_kind(self) -> (kind: HirKind)
        ensures
            kind@ == self@,
            proper(self@),
    {
        proof {
            use_type_invariant(&self);
            lemma_node_proper(self);
        }
        self.kind
    }

    /// The expression that matches the empty string.
    pub fn empty() -> (hir: Hir)
        ensures
            hir@ == HirView::Empty,
    {
        Hir { kind: HirKind::Empty }
    }

    /// The expression that matches exactly `bytes`.
    pub fn literal(bytes: Vec<u8>) -> (hir: Hir)
        ensures
            hir@ == HirView::Literal(bytes@),
    {
        Hir { kind: HirKind::Literal(bytes) }
    }

    /// The expression that matches one character of `class`.
    pub fn class(class: Class) -> (hir: Hir)
        ensures
            hir@ == HirView::Class(class@),
    {
        Hir { kind: HirKind::Class(class) }
    }

    /// The expression that matches any one byte, as `??` in a hex pattern.
    pub fn any_byte() -> (hir: Hir)
        ensures
            hir@ == HirView::Class(ClassView::Bytes(seq![(0u8, 255u8)])),
    {
        let mut all = class_bytes_empty();
        class_bytes_push(&mut all, 0, u8::MAX);
        proof {
            lemma_all_bytes(byte_ranges(all));
        }
        Hir { kind: HirKind::Class(Class::Bytes(all)) }
    }

    /// The look-around assertion `look`.
    pub fn look(look: Look) -> (hir: Hir)
        ensures
            hir@ == HirView::Look(look),
    {
        Hir { kind: HirKind::Look(look) }
    }

    /// The repetition `rep`.
    pub fn repetition(rep: Repetition) -> (hir: Hir)
        ensures
            hir@ == (HirView::Repetition {
                min: rep.min,
                max: rep.max,
                greedy: rep.greedy,
                sub: Box::new(rep.sub@),
            }),
    {
        Hir { kind: HirKind::Repetition(rep) }
    }

    /// The capturing group `capture`.
    pub fn capture(capture: Capture) -> (hir: Hir)
        ensures
            hir@ == (HirView::Capture {
                index: capture.index,
                name: match capture.name {
                    Some(n) => Some(n@),
                    None => None,
                },
                sub: Box::new(capture.sub@),
            }),
    {
        Hir { kind: HirKind::Capture(capture) }
    }

    /// The concatenation of `subs`. Without any sub-expression it is the
    /// empty expression, and a single sub-expression is handed back as it is.
    pub fn concat(subs: Vec<Hir>) -> (hir: Hir)
        ensures
            hir@ == concat_view(hir_views(subs@)),
    {
        let mut subs = subs;
        if subs.len() == 0 {
            Hir { kind: HirKind::Empty }
        } else if subs.len() == 1 {
            let only = subs.pop().unwrap();
            only
        } else {
            proof {
                lemma_view_of_children(subs);
            }
            Hir { kind: HirKind::Concat(subs) }
        }
    }

    /// The alternation of `subs`.
    pub fn alternation(subs: Vec<Hir>) -> (hir: Hir)
        ensures
            hir@ == HirView::Alternation(hir_views(subs@)),
    {
        proof {
            lemma_view_of_children(subs);
        }
        Hir { kind: HirKind::Alternation(subs) }
    }
}

} // verus!
