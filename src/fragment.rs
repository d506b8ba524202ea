//! Binary fragments built while an expression is reduced.
use vstd::prelude::*;
use crate::entities::{views, FPoint, PointView};

verus! {

/// The label of a fragment: a terminal with its point, or a bare grammar label.
pub enum TreeType {
    Token(i16, FPoint),
    Skip(i16),
}

/// A transient binary fragment of an expression being parsed.
pub struct ParserTree {
    pub token: TreeType,
    pub left_tokens: Option<Box<ParserTree>>,
    pub right_tokens: Option<Box<ParserTree>>,
}

/// What a fragment's label holds, as plain values.
pub enum Label {
    Leaf(i16, PointView),
    Mark(i16),
}

/// What a fragment holds, as plain values.
pub struct Frag {
    pub label: Label,
    pub left: Option<Box<Frag>>,
    pub right: Option<Box<Frag>>,
}

impl Label {
    /// The grammar symbol that the precedence table is consulted with.
    pub open spec fn symbol(self) -> i16 {
        match self {
            Label::Leaf(s, _) => s,
            Label::Mark(s) => s,
        }
    }
}

impl Frag {
    /// A fragment without children.
    pub open spec fn single(label: Label) -> Frag {
        Frag { label, left: None, right: None }
    }

    /// The number of nodes on the longest path from the root.
    pub open spec fn height(self) -> nat
        decreases self,
    {
        let l = match self.left {
            Some(t) => (*t).height(),
            None => 0,
        };
        let r = match self.right {
            Some(t) => (*t).height(),
            None => 0,
        };
        1 + if l >= r { l } else { r }
    }

    /// Attaches `sub` below the leftmost node of the fragment.
    pub open spec fn add_left(self, sub: Frag) -> Frag
        decreases self,
    {
        match self.left {
            Some(l) => Frag { left: Some(Box::new((*l).add_left(sub))), ..self },
            None => Frag { left: Some(Box::new(sub)), ..self },
        }
    }

    /// Attaches `sub` as the right child, or, where there is one, below the
    /// leftmost node of the right child.
    pub open spec fn add_right(self, sub: Frag) -> Frag {
        match self.right {
            Some(r) => Frag { right: Some(Box::new((*r).add_left(sub))), ..self },
            None => Frag { right: Some(Box::new(sub)), ..self },
        }
    }

    /// The points of the terminals, in order: left subtree, own point, right subtree.
    pub open spec fn flat(self) -> Seq<PointView>
        decreases self, 1nat,
    {
        self.left_flat() + self.own_flat() + self.right_flat()
    }

    pub open spec fn left_flat(self) -> Seq<PointView>
        decreases self, 0nat,
    {
        match self.left {
            Some(t) => (*t).flat(),
            None => Seq::empty(),
        }
    }

    pub open spec fn right_flat(self) -> Seq<PointView>
        decreases self, 0nat,
    {
        match self.right {
            Some(t) => (*t).flat(),
            None => Seq::empty(),
        }
    }

    pub open spec fn own_flat(self) -> Seq<PointView> {
        match self.label {
            Label::Leaf(_, p) => seq![p],
            Label::Mark(_) => Seq::empty(),
        }
    }
}

/// The plain-value form of a fragment.
pub open spec fn frag_of(t: ParserTree) -> Frag
    decreases t,
{
    Frag {
        label: match t.token {
            TreeType::Token(s, p) => Label::Leaf(s, p@),
            TreeType::Skip(s) => Label::Mark(s),
        },
        left: match t.left_tokens {
            Some(l) => Some(Box::new(frag_of(*l))),
            None => None,
        },
        right: match t.right_tokens {
            Some(r) => Some(Box::new(frag_of(*r))),
            None => None,
        },
    }
}

/// The plain-value forms of a stack of fragments.
pub open spec fn frag_views(v: Seq<ParserTree>) -> Seq<Frag> {
    v.map_values(|t: ParserTree| t@)
}

impl View for ParserTree {
    type V = Frag;

    open spec fn view(&self) -> Frag {
        frag_of(*self)
    }
}

impl TreeType {
    pub fn get_symbol(&self) -> (r: i16)
        ensures
            r == (match self {
                TreeType::Token(s, _) => *s,
                TreeType::Skip(s) => *s,
            }),
    {
        match self {
            TreeType::Token(s, _) => *s,
            TreeType::Skip(s) => *s,
        }
    }
}

impl ParserTree {
    pub fn new(token: TreeType) -> (r: Self)
        ensures
            r.token == token,
            r.left_tokens is None,
            r.right_tokens is None,
    {
        ParserTree { token, left_tokens: None, right_tokens: None }
    }

    pub fn add_left(&mut self, left_tree: ParserTree)
        ensures
            final(self)@ == old(self)@.add_left(left_tree@),
        decreases old(self)@.height(),
    {
        match self.left_tokens.take() {
            Some(mut s) => {
                s.add_left(left_tree);
                self.left_tokens = Some(s);
            },
            None => {
                self.left_tokens = Some(Box::new(left_tree));
            },
        }
    }

    pub fn add_right(&mut self, right_tree: ParserTree)
        ensures
            final(self)@ == old(self)@.add_right(right_tree@),
    {
        match self.right_tokens.take() {
            Some(mut s) => {
                s.add_left(right_tree);
                self.right_tokens = Some(s);
            },
            None => {
                self.right_tokens = Some(Box::new(right_tree));
            },
        }
    }

    /// Appends the points of the terminals to `collector`, in order.
    pub fn iter_recursive(&self, collector: &mut Vec<FPoint>)
        ensures
            views(final(collector)@) == views(old(collector)@) + self@.flat(),
        decreases self@.height(),
    {
        let ghost c0 = views(collector@);
        if let Some(left) = &self.left_tokens {
            left.iter_recursive(collector);
        }
        let ghost c1 = views(collector@);
        match &self.token {
            TreeType::Token(_, value) => {
                collector.push(value.duplicate());
                proof {
                    assert(views(collector@) =~= c1.push(value@));
                }
            },
            TreeType::Skip(_) => {},
        }
        let ghost c2 = views(collector@);
        if let Some(right) = &self.right_tokens {
            right.iter_recursive(collector);
        }
        proof {
            let l = self@.left_flat();
            let r = self@.right_flat();
            let m = self@.own_flat();
            assert(c1 =~= c0 + l);
            assert(c2 =~= c0 + l + m);
            assert(views(collector@) =~= c0 + (l + m + r));
        }
    }

    pub fn iter(&self, collector: &mut Vec<FPoint>)
        ensures
            views(final(collector)@) == views(old(collector)@) + self@.flat(),
    {
        self.iter_recursive(collector);
    }
}

} // verus!
