//! The order of types and properties, by which they can be sorted: value
//! types come before dependency types, which come before optional types;
//! types of one kind stand in the order of their registration, optional
//! types in the order of their inner types.

use crate::fw::{DepProp, DepType, Type, ValType};
use std::cmp::Ordering;
use vstd::prelude::*;

verus! {

/// The order of two numbers.
pub open spec fn number_order(a: int, b: int) -> Ordering {
    if a < b {
        Ordering::Less
    } else if a == b {
        Ordering::Equal
    } else {
        Ordering::Greater
    }
}

/// The order of two types.
pub open spec fn type_order<I>(a: Type<I>, b: Type<I>) -> Ordering
    decreases a,
{
    match (a, b) {
        (Type::Val(x), Type::Val(y)) => number_order(x.index(), y.index()),
        (Type::Val(_), _) => Ordering::Less,
        (Type::Dep(_), Type::Val(_)) => Ordering::Greater,
        (Type::Dep(x), Type::Dep(y)) => number_order(x.index(), y.index()),
        (Type::Dep(_), Type::Opt(_)) => Ordering::Less,
        (Type::Opt(x), Type::Opt(y)) => type_order(*x, *y),
        (Type::Opt(_), _) => Ordering::Greater,
    }
}

/// The order of two properties: by owner, then by number.
pub open spec fn prop_order<I>(a: DepProp<I>, b: DepProp<I>) -> Ordering {
    if a.owner_index() == b.owner_index() {
        number_order(a.number(), b.number())
    } else {
        number_order(a.owner_index(), b.owner_index())
    }
}

fn order(a: usize, b: usize) -> (r: Ordering)
    ensures
        a < b ==> r == Ordering::Less,
        a == b ==> r == Ordering::Equal,
        a > b ==> r == Ordering::Greater,
{
    if a < b {
        Ordering::Less
    } else if a == b {
        Ordering::Equal
    } else {
        Ordering::Greater
    }
}

impl<I> ValType<I> {
    /// The order of this type and another.
    pub fn cmp(&self, other: &ValType<I>) -> (r: Ordering)
        ensures
            r == number_order(self.index(), other.index()),
    {
        order(self.number(), other.number())
    }
}

impl<I> DepType<I> {
    /// The order of this type and another.
    pub fn cmp(&self, other: &DepType<I>) -> (r: Ordering)
        ensures
            r == number_order(self.index(), other.index()),
    {
        order(self.number(), other.number())
    }
}

impl<I> DepProp<I> {
    /// The order of this property and another.
    pub fn cmp(&self, other: &DepProp<I>) -> (r: Ordering)
        ensures
            r == prop_order(*self, *other),
    {
        let by_owner = order(self.owner().number(), other.owner().number());
        match by_owner {
            Ordering::Equal => order(self.place(), other.place()),
            _ => by_owner,
        }
    }
}

impl<I> Type<I> {
    /// The order of this type and another.
    pub fn cmp(&self, other: &Type<I>) -> (r: Ordering)
        ensures
            r == type_order(*self, *other),
        decreases *self,
    {
        match self {
            Type::Val(v) => {
                match other {
                    Type::Val(o_v) => v.cmp(o_v),
                    Type::Dep(_) => Ordering::Less,
                    Type::Opt(_) => Ordering::Less,
                }
            },
            Type::Dep(d) => {
                match other {
                    Type::Val(_) => Ordering::Greater,
                    Type::Dep(o_d) => d.cmp(o_d),
                    Type::Opt(_) => Ordering::Less,
                }
            },
            Type::Opt(t) => {
                match other {
                    Type::Val(_) => Ordering::Greater,
                    Type::Dep(_) => Ordering::Greater,
                    Type::Opt(o_t) => t.cmp(o_t),
                }
            },
        }
    }
}

/// Two types are equal in the order exactly when they are the same type.
pub proof fn law_order_equal<I>(a: Type<I>, b: Type<I>)
    ensures
        type_order(a, b) == Ordering::Equal <==> a == b,
    decreases a,
{
    match (a, b) {
        (Type::Val(x), Type::Val(y)) => {
            ValType::lemma_index(x, y);
        },
        (Type::Dep(x), Type::Dep(y)) => {
            DepType::lemma_index(x, y);
        },
        (Type::Opt(x), Type::Opt(y)) => {
            law_order_equal(*x, *y);
        },
        _ => {},
    }
}

/// A type comes before another exactly when the other comes after it.
pub proof fn law_order_reverse<I>(a: Type<I>, b: Type<I>)
    ensures
        type_order(a, b) == Ordering::Less <==> type_order(b, a) == Ordering::Greater,
    decreases a,
{
    match (a, b) {
        (Type::Opt(x), Type::Opt(y)) => {
            law_order_reverse(*x, *y);
        },
        _ => {},
    }
}

/// The order of types is transitive.
pub proof fn law_order_transitive<I>(a: Type<I>, b: Type<I>, c: Type<I>)
    requires
        type_order(a, b) == Ordering::Less,
        type_order(b, c) == Ordering::Less,
    ensures
        type_order(a, c) == Ordering::Less,
    decreases a,
{
    match (a, b, c) {
        (Type::Opt(x), Type::Opt(y), Type::Opt(z)) => {
            law_order_transitive(*x, *y, *z);
        },
        _ => {},
    }
}

} // verus!
