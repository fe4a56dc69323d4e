//! The dependency-object framework: a registry of value types and
//! dependency types, typed values, properties with defaults that are
//! inherited along the base chain, class-wide set locks, change hooks, and
//! objects with local property values and data slots.
//!
//! The code that a constructor or a change subscriber runs is the user's:
//! the registry holds a [`Hook`] for each, and whoever creates an object
//! or sets a property hands in the [`Hooks`] that run them.

use crate::geometry::Rect;
use crate::window::Window;
use std::marker::PhantomData;
use vstd::prelude::*;
use vstd::std_specs::cmp::PartialEqSpecImpl;

verus! {

/// A registered value type, by its number in the registry that made it.
#[derive(Debug)]
pub struct ValType<I>(usize, PhantomData<I>);

impl<I> Clone for ValType<I> {
    fn clone(&self) -> (r: Self)
        ensures
            r == *self,
    {
        ValType(self.0, PhantomData)
    }
}

impl<I> Copy for ValType<I> {

}

impl<I> PartialEq for ValType<I> {
    fn eq(&self, other: &ValType<I>) -> (r: bool) {
        self.0 == other.0
    }
}

impl<I> PartialEqSpecImpl for ValType<I> {
    open spec fn obeys_eq_spec() -> bool {
        true
    }

    open spec fn eq_spec(&self, other: &ValType<I>) -> bool {
        self.index() == other.index()
    }
}

impl<I> Eq for ValType<I> {

}

impl<I> ValType<I> {
    /// Number of the type in its registry.
    pub closed spec fn index(&self) -> int {
        self.0 as int
    }

    /// Number of the type in its registry.
    pub fn number(&self) -> (n: usize)
        ensures
            n == self.index(),
    {
        self.0
    }

    /// Types with the same number are the same.
    pub proof fn lemma_index(a: ValType<I>, b: ValType<I>)
        ensures
            a.index() == b.index() <==> a == b,
            0 <= a.index() <= usize::MAX,
    {
    }
}

/// A registered dependency type, by its number in the registry that made
/// it.
#[derive(Debug)]
pub struct DepType<I>(usize, PhantomData<I>);

impl<I> Clone for DepType<I> {
    fn clone(&self) -> (r: Self)
        ensures
            r == *self,
    {
        DepType(self.0, PhantomData)
    }
}

impl<I> Copy for DepType<I> {

}

impl<I> PartialEq for DepType<I> {
    fn eq(&self, other: &DepType<I>) -> (r: bool) {
        self.0 == other.0
    }
}

impl<I> PartialEqSpecImpl for DepType<I> {
    open spec fn obeys_eq_spec() -> bool {
        true
    }

    open spec fn eq_spec(&self, other: &DepType<I>) -> bool {
        self.index() == other.index()
    }
}

impl<I> Eq for DepType<I> {

}

impl<I> DepType<I> {
    /// Number of the type in its registry.
    pub closed spec fn index(&self) -> int {
        self.0 as int
    }

    /// Number of the type in its registry.
    pub fn number(&self) -> (n: usize)
        ensures
            n == self.index(),
    {
        self.0
    }

    /// Types with the same number are the same.
    pub proof fn lemma_index(a: DepType<I>, b: DepType<I>)
        ensures
            a.index() == b.index() <==> a == b,
            0 <= a.index() <= usize::MAX,
    {
    }
}

/// A registered dependency property: the type that owns it, and its number
/// among the properties of that type.
#[derive(Debug)]
pub struct DepProp<I> {
    owner: usize,
    index: usize,
    instance: PhantomData<I>,
}

impl<I> Clone for DepProp<I> {
    fn clone(&self) -> (r: Self)
        ensures
            r == *self,
    {
        DepProp { owner: self.owner, index: self.index, instance: PhantomData }
    }
}

impl<I> Copy for DepProp<I> {

}

impl<I> PartialEq for DepProp<I> {
    fn eq(&self, other: &DepProp<I>) -> (r: bool) {
        self.owner == other.owner && self.index == other.index
    }
}

impl<I> PartialEqSpecImpl for DepProp<I> {
    open spec fn obeys_eq_spec() -> bool {
        true
    }

    open spec fn eq_spec(&self, other: &DepProp<I>) -> bool {
        self.owner_index() == other.owner_index() && self.number() == other.number()
    }
}

impl<I> Eq for DepProp<I> {

}

impl<I> DepProp<I> {
    /// Number of the type that owns the property.
    pub closed spec fn owner_index(&self) -> int {
        self.owner as int
    }

    /// Number of the property among those of its owner.
    pub closed spec fn number(&self) -> int {
        self.index as int
    }

    /// Properties with the same owner and number are the same.
    pub proof fn lemma_index(a: DepProp<I>, b: DepProp<I>)
        ensures
            (a.owner_index() == b.owner_index() && a.number() == b.number()) <==> a == b,
            0 <= a.owner_index() <= usize::MAX,
            0 <= a.number() <= usize::MAX,
    {
    }

    /// Number of the property among those of its owner.
    pub fn place(&self) -> (n: usize)
        ensures
            n == self.number(),
    {
        self.index
    }

    /// The type that owns the property.
    pub fn owner(self) -> (t: DepType<I>)
        ensures
            t.index() == self.owner_index(),
    {
        DepType(self.owner, PhantomData)
    }
}

/// Names the code that a constructor or a change subscriber runs.
#[derive(Debug, Clone, Copy, PartialEq, Eq, Structural, Hash)]
pub struct Hook {
    pub id: usize,
}

/// An identity that a registry issues once.
#[derive(Debug, Clone, Copy, PartialEq, Eq, Structural, Hash, PartialOrd, Ord)]
pub struct Unique {
    id: u64,
}

impl Unique {
    /// Number of the identity: how many the registry had issued before.
    pub closed spec fn serial(&self) -> int {
        self.id as int
    }

    /// Identities with the same number are the same.
    pub proof fn lemma_serial(a: Unique, b: Unique)
        ensures
            a.serial() == b.serial() <==> a == b,
    {
    }
}

/// Key of a data slot of an object.
#[derive(Debug, Clone, Copy, PartialEq, Eq, Structural, Hash, PartialOrd, Ord)]
pub struct DepObjDataKey(Unique);

impl DepObjDataKey {
    /// Number of the key.
    pub closed spec fn serial(&self) -> int {
        self.0.id as int
    }

    /// Keys with the same number are the same.
    pub proof fn lemma_serial(a: DepObjDataKey, b: DepObjDataKey)
        ensures
            a.serial() == b.serial() <==> a == b,
    {
    }
}

/// Token that allows to set a property whose setter is locked for a class.
#[derive(Debug, Clone, Copy, PartialEq, Eq, Structural, Hash, PartialOrd, Ord)]
pub struct ClassSetLock(Unique);

impl ClassSetLock {
    /// Number of the token.
    pub closed spec fn serial(&self) -> int {
        self.0.id as int
    }

    /// Tokens with the same number are the same.
    pub proof fn lemma_serial(a: ClassSetLock, b: ClassSetLock)
        ensures
            a.serial() == b.serial() <==> a == b,
    {
    }
}

/// What a value or a data slot holds.
#[derive(Debug, PartialEq, Eq)]
pub enum Payload {
    Str(String),
    Bool(bool),
    Int(i32),
    Rect(Rect),
    Window(Window),
}

impl Clone for Payload {
    fn clone(&self) -> (r: Self)
        ensures
            r == *self,
    {
        match self {
            Payload::Str(s) => Payload::Str(s.clone()),
            Payload::Bool(b) => Payload::Bool(*b),
            Payload::Int(i) => Payload::Int(*i),
            Payload::Rect(rect) => Payload::Rect(*rect),
            Payload::Window(w) => Payload::Window(*w),
        }
    }
}

/// What a value or a data slot can hold.
pub trait Boxed: Sized {
    /// What the payload holds, if it is of this type.
    spec fn held(p: Payload) -> Option<Self>;

    /// The payload that holds this.
    fn into_payload(self) -> (p: Payload)
        ensures
            Self::held(p) == Some(self),
    ;

    /// What the payload holds, if it is of this type.
    fn from_payload(p: &Payload) -> (r: Option<&Self>)
        ensures
            match r {
                Some(v) => Self::held(*p) == Some(*v),
                None => Self::held(*p) is None,
            },
    ;
}

impl Boxed for String {
    open spec fn held(p: Payload) -> Option<String> {
        match p {
            Payload::Str(s) => Some(s),
            _ => None,
        }
    }

    fn into_payload(self) -> (p: Payload) {
        Payload::Str(self)
    }

    fn from_payload(p: &Payload) -> (r: Option<&String>) {
        match p {
            Payload::Str(s) => Some(s),
            _ => None,
        }
    }
}

impl Boxed for bool {
    open spec fn held(p: Payload) -> Option<bool> {
        match p {
            Payload::Bool(b) => Some(b),
            _ => None,
        }
    }

    fn into_payload(self) -> (p: Payload) {
        Payload::Bool(self)
    }

    fn from_payload(p: &Payload) -> (r: Option<&bool>) {
        match p {
            Payload::Bool(b) => Some(b),
            _ => None,
        }
    }
}

impl Boxed for i32 {
    open spec fn held(p: Payload) -> Option<i32> {
        match p {
            Payload::Int(i) => Some(i),
            _ => None,
        }
    }

    fn into_payload(self) -> (p: Payload) {
        Payload::Int(self)
    }

    fn from_payload(p: &Payload) -> (r: Option<&i32>) {
        match p {
            Payload::Int(i) => Some(i),
            _ => None,
        }
    }
}

impl Boxed for Rect {
    open spec fn held(p: Payload) -> Option<Rect> {
        match p {
            Payload::Rect(rect) => Some(rect),
            _ => None,
        }
    }

    fn into_payload(self) -> (p: Payload) {
        Payload::Rect(self)
    }

    fn from_payload(p: &Payload) -> (r: Option<&Rect>) {
        match p {
            Payload::Rect(rect) => Some(rect),
            _ => None,
        }
    }
}

impl Boxed for Window {
    open spec fn held(p: Payload) -> Option<Window> {
        match p {
            Payload::Window(w) => Some(w),
            _ => None,
        }
    }

    fn into_payload(self) -> (p: Payload) {
        Payload::Window(self)
    }

    fn from_payload(p: &Payload) -> (r: Option<&Window>) {
        match p {
            Payload::Window(w) => Some(w),
            _ => None,
        }
    }
}

impl Payload {
    /// What the payload holds, if it is of the type `T`.
    pub fn downcast_ref<T: Boxed>(&self) -> (r: Option<&T>)
        ensures
            match r {
                Some(v) => T::held(*self) == Some(*v),
                None => T::held(*self) is None,
            },
    {
        T::from_payload(self)
    }
}

/// A value of a registered value type.
#[derive(Debug)]
pub struct Val<I> {
    type_: ValType<I>,
    unbox: Payload,
}

impl<I> Clone for Val<I> {
    fn clone(&self) -> (r: Self)
        ensures
            r == *self,
    {
        Val { type_: self.type_, unbox: self.unbox.clone() }
    }
}

impl<I> ValType<I> {
    /// The value of this type that holds `val`.
    pub fn box_<T: Boxed>(&self, val: T) -> (v: Val<I>)
        ensures
            v.type_model() == *self,
            T::held(v.payload()) == Some(val),
    {
        Val { type_: *self, unbox: val.into_payload() }
    }
}

impl<I> Val<I> {
    /// The type of the value.
    pub closed spec fn type_model(&self) -> ValType<I> {
        self.type_
    }

    /// What the value holds.
    pub closed spec fn payload(&self) -> Payload {
        self.unbox
    }

    /// The type of the value.
    pub fn type_(&self) -> (t: ValType<I>)
        ensures
            t == self.type_model(),
    {
        self.type_
    }

    /// What the value holds.
    pub fn raw(&self) -> (p: &Payload)
        ensures
            *p == self.payload(),
    {
        &self.unbox
    }

    /// What the value holds, which is of the type `T`.
    pub fn unbox<T: Boxed>(&self) -> (r: &T)
        requires
            T::held(self.payload()) is Some,
        ensures
            T::held(self.payload()) == Some(*r),
    {
        match T::from_payload(&self.unbox) {
            Some(v) => v,
            None => vstd::pervasive::unreached(),
        }
    }
}

/// The type of a value.
#[derive(Debug)]
pub enum Type<I> {
    /// A value type.
    Val(ValType<I>),
    /// A dependency type: a reference to an object of it.
    Dep(DepType<I>),
    /// Either nothing or a value of the inner type.
    Opt(Box<Type<I>>),
}

impl<I> Clone for Type<I> {
    fn clone(&self) -> (r: Self)
        ensures
            r == *self,
        decreases *self,
    {
        match self {
            Type::Val(v) => Type::Val(*v),
            Type::Dep(d) => Type::Dep(*d),
            Type::Opt(t) => Type::Opt(Box::new((**t).clone())),
        }
    }
}

impl<I> PartialEq for Type<I> {
    fn eq(&self, other: &Type<I>) -> (r: bool) {
        types_equal(self, other)
    }
}

impl<I> PartialEqSpecImpl for Type<I> {
    open spec fn obeys_eq_spec() -> bool {
        true
    }

    open spec fn eq_spec(&self, other: &Type<I>) -> bool {
        *self == *other
    }
}

impl<I> Eq for Type<I> {

}

/// Whether two types are the same.
fn types_equal<I>(a: &Type<I>, b: &Type<I>) -> (r: bool)
    ensures
        r == (*a == *b),
    decreases *a,
{
    match (a, b) {
        (Type::Val(x), Type::Val(y)) => x.0 == y.0,
        (Type::Dep(x), Type::Dep(y)) => x.0 == y.0,
        (Type::Opt(x), Type::Opt(y)) => types_equal(&**x, &**y),
        _ => false,
    }
}

/// A reference to a dependency object: its type, and the number under
/// which the owner of the object finds it.
#[derive(Debug)]
pub struct DepRef<I> {
    type_: DepType<I>,
    id: usize,
}

impl<I> Clone for DepRef<I> {
    fn clone(&self) -> (r: Self)
        ensures
            r == *self,
    {
        DepRef { type_: self.type_, id: self.id }
    }
}

impl<I> Copy for DepRef<I> {

}

impl<I> DepRef<I> {
    /// The type of the object.
    pub closed spec fn type_model(&self) -> DepType<I> {
        self.type_
    }

    /// The number of the object.
    pub closed spec fn number(&self) -> int {
        self.id as int
    }

    /// The reference to the object of the given type and number.
    pub fn new(type_: DepType<I>, id: usize) -> (r: DepRef<I>)
        ensures
            r.type_model() == type_,
            r.number() == id,
    {
        DepRef { type_, id }
    }

    /// The type of the object.
    pub fn type_(&self) -> (t: DepType<I>)
        ensures
            t == self.type_model(),
    {
        self.type_
    }

    /// The number of the object.
    pub fn id(&self) -> (r: usize)
        ensures
            r == self.number(),
    {
        self.id
    }
}

/// A value: of a value type, a reference to an object, or an optional
/// value, which is nothing of a type or holds a value.
#[derive(Debug)]
pub enum Obj<I> {
    Val(Val<I>),
    Dep(DepRef<I>),
    Nil(Type<I>),
    Has(Box<Obj<I>>),
}

impl<I> Clone for Obj<I> {
    fn clone(&self) -> (r: Self)
        ensures
            r == *self,
        decreases *self,
    {
        match self {
            Obj::Val(v) => Obj::Val(v.clone()),
            Obj::Dep(d) => Obj::Dep(*d),
            Obj::Nil(t) => Obj::Nil(t.clone()),
            Obj::Has(o) => Obj::Has(Box::new((**o).clone())),
        }
    }
}

impl<I> Obj<I> {
    /// The type of the value.
    pub open spec fn type_of(&self) -> Type<I>
        decreases *self,
    {
        match self {
            Obj::Val(v) => Type::Val(v.type_model()),
            Obj::Dep(d) => Type::Dep(d.type_model()),
            Obj::Nil(t) => Type::Opt(Box::new(*t)),
            Obj::Has(o) => Type::Opt(Box::new(o.type_of())),
        }
    }

    /// The type of the value.
    pub fn type_(&self) -> (t: Type<I>)
        ensures
            t == self.type_of(),
        decreases *self,
    {
        match self {
            Obj::Val(v) => Type::Val(v.type_()),
            Obj::Dep(d) => Type::Dep(d.type_()),
            Obj::Nil(t) => Type::Opt(Box::new(t.clone())),
            Obj::Has(o) => Type::Opt(Box::new(o.type_())),
        }
    }

    /// What a value of a value type holds, which is of the type `T`.
    pub fn unbox<T: Boxed>(&self) -> (r: &T)
        requires
            self is Val,
            T::held(self->Val_0.payload()) is Some,
        ensures
            T::held(self->Val_0.payload()) == Some(*r),
    {
        match self {
            Obj::Val(v) => v.unbox(),
            _ => vstd::pervasive::unreached(),
        }
    }
}

/// Describes a value type: its name, and how its values are read from and
/// written as text. What a description does is told twice: by the
/// functions of the first half for contracts, and by those of the second
/// half for the program.
pub trait ValTypeDesc<I> {
    /// Name of the type.
    spec fn name_model(&self) -> &str;

    /// Whether the text stands for a value of the type.
    spec fn accepts(&self, s: &str) -> bool;

    /// Whether `p` is what a value holds that the text `s` stands for.
    spec fn reads(&self, s: &str, p: &Payload) -> bool;

    /// Whether `text` is the text that stands for a value that holds `p`.
    spec fn writes(&self, p: &Payload, text: &String) -> bool;

    /// Name of the type.
    fn name(&self) -> (r: &str)
        ensures
            r@ == self.name_model()@,
    ;

    /// The value that `s` stands for, if any; `type_` is the handle under
    /// which the type is registered.
    fn parse(&self, type_: ValType<I>, s: &str) -> (r: Option<Val<I>>)
        ensures
            r is Some <==> self.accepts(s),
            r matches Some(v) ==> self.reads(s, &v.payload()),
    ;

    /// The text that stands for the value.
    fn to_string(&self, val: &Val<I>) -> (r: String)
        ensures
            self.writes(&val.payload(), &r),
    ;
}

/// A value that is kept as it was handed in. A boxed description goes into
/// the registry inside one: Verus knows a boxed trait object again after a
/// move into a place of a generic type, and not after a move into a place
/// whose type names the trait.
///
/// Whoever wants to know of a registered value type what its description
/// says holds the boxed description first, in a statement of its own, and
/// registers what is held with [`Fw::reg_held`] or [`Fw::reg_held_named`].
pub struct Held<T> {
    pub it: T,
}

/// Holds the value.
pub fn hold<T>(it: T) -> (r: Held<T>)
    ensures
        r.it == it,
{
    Held { it }
}

#[verifier::reject_recursive_types(I)]
struct ValTypeEntry<I> {
    name: String,
    desc: Held<Box<dyn ValTypeDesc<I>>>,
}

impl<I> ValTypeEntry<I> {
    fn new(name: String, desc: Held<Box<dyn ValTypeDesc<I>>>) -> (r: ValTypeEntry<I>)
        ensures
            r.name == name,
            r.desc == desc,
    {
        ValTypeEntry { name, desc }
    }
}

struct DepPropDesc<I> {
    name: String,
    val_type: Type<I>,
    attached: Option<DepType<I>>,
}

struct DepPropClass<I> {
    prop: DepProp<I>,
    def_val: Option<Obj<I>>,
    set_lock: Option<ClassSetLock>,
    on_changed: Vec<Hook>,
}

struct DepTypeDesc<I> {
    base: Option<DepType<I>>,
    name: String,
    props: Vec<DepPropDesc<I>>,
    prop_class: Vec<DepPropClass<I>>,
    ctor: Option<Hook>,
}

/// The registry of value types and dependency types, with the properties
/// of the dependency types and what each class holds for them.
#[verifier::reject_recursive_types(I)]
pub struct Fw<I> {
    val_types: Vec<ValTypeEntry<I>>,
    dep_types: Vec<DepTypeDesc<I>>,
    issued: u64,
}

/// Place of the record for property `p` in a list of class records.
spec fn class_index<I>(classes: Seq<DepPropClass<I>>, p: DepProp<I>) -> Option<int> {
    if exists|k: int| 0 <= k < classes.len() && (#[trigger] classes[k]).prop == p {
        Some(choose|k: int| 0 <= k < classes.len() && (#[trigger] classes[k]).prop == p)
    } else {
        None
    }
}

/// No two records of the list are for the same property.
spec fn class_keys_unique<I>(classes: Seq<DepPropClass<I>>) -> bool {
    forall|j: int, k: int|
        0 <= j < classes.len() && 0 <= k < classes.len() && j != k ==> (#[trigger] classes[j]).prop
            != (#[trigger] classes[k]).prop
}

impl<I> Fw<I> {
    /// Number of registered value types.
    pub closed spec fn val_count(&self) -> nat {
        self.val_types@.len()
    }

    /// Name of the value type with the number `i`.
    pub closed spec fn val_name(&self, i: int) -> Seq<char> {
        self.val_types@[i].name@
    }

    /// Whether the description of the value type with the number `i`
    /// accepts the text.
    pub closed spec fn val_accepts(&self, i: int, s: &str) -> bool {
        self.val_types@[i].desc.it.accepts(s)
    }

    /// Whether `p` is what the description of the value type with the
    /// number `i` reads from the text.
    pub closed spec fn val_reads(&self, i: int, s: &str, p: &Payload) -> bool {
        self.val_types@[i].desc.it.reads(s, p)
    }

    /// Whether `text` is what the description of the value type with the
    /// number `i` writes for `p`.
    pub closed spec fn val_writes(&self, i: int, p: &Payload, text: &String) -> bool {
        self.val_types@[i].desc.it.writes(p, text)
    }

    /// Number of registered dependency types.
    pub closed spec fn dep_count(&self) -> nat {
        self.dep_types@.len()
    }

    /// Name of the dependency type with the number `t`.
    pub closed spec fn dep_name(&self, t: int) -> Seq<char> {
        self.dep_types@[t].name@
    }

    /// Base of the dependency type with the number `t`.
    pub closed spec fn base_of(&self, t: int) -> Option<DepType<I>> {
        self.dep_types@[t].base
    }

    /// Constructor of the dependency type with the number `t`.
    pub closed spec fn ctor_of(&self, t: int) -> Option<Hook> {
        self.dep_types@[t].ctor
    }

    /// Number of properties that the dependency type with the number `t`
    /// owns.
    pub closed spec fn prop_count(&self, t: int) -> nat {
        self.dep_types@[t].props@.len()
    }

    /// Name of a property.
    pub closed spec fn prop_name(&self, p: DepProp<I>) -> Seq<char> {
        self.dep_types@[p.owner as int].props@[p.index as int].name@
    }

    /// Type of the values of a property.
    pub closed spec fn prop_type(&self, p: DepProp<I>) -> Type<I> {
        self.dep_types@[p.owner as int].props@[p.index as int].val_type
    }

    /// The type that a property is attached to, if it is not a property of
    /// its owner's objects.
    pub closed spec fn prop_attached(&self, p: DepProp<I>) -> Option<DepType<I>> {
        self.dep_types@[p.owner as int].props@[p.index as int].attached
    }

    /// The default that the class `t` holds for the property, if any.
    pub closed spec fn class_def(&self, t: int, p: DepProp<I>) -> Option<Obj<I>> {
        match class_index(self.dep_types@[t].prop_class@, p) {
            Some(k) => self.dep_types@[t].prop_class@[k].def_val,
            None => None,
        }
    }

    /// The set lock that the class `t` holds for the property, if any.
    pub closed spec fn class_lock(&self, t: int, p: DepProp<I>) -> Option<ClassSetLock> {
        match class_index(self.dep_types@[t].prop_class@, p) {
            Some(k) => self.dep_types@[t].prop_class@[k].set_lock,
            None => None,
        }
    }

    /// The change subscribers that the class `t` holds for the property, in
    /// the order in which they were registered.
    pub closed spec fn class_hooks(&self, t: int, p: DepProp<I>) -> Seq<Hook> {
        match class_index(self.dep_types@[t].prop_class@, p) {
            Some(k) => self.dep_types@[t].prop_class@[k].on_changed@,
            None => Seq::empty(),
        }
    }

    /// Number of identities that the registry has issued.
    pub closed spec fn issued_count(&self) -> int {
        self.issued as int
    }

    /// Whether the value type is one of this registry.
    pub open spec fn has_val(&self, v: ValType<I>) -> bool {
        0 <= v.index() < self.val_count()
    }

    /// Whether the dependency type is one of this registry.
    pub open spec fn has_dep(&self, t: DepType<I>) -> bool {
        0 <= t.index() < self.dep_count()
    }

    /// Whether the property is one of this registry.
    pub open spec fn has_prop(&self, p: DepProp<I>) -> bool {
        0 <= p.owner_index() < self.dep_count() && 0 <= p.number() < self.prop_count(
            p.owner_index(),
        )
    }

    /// Whether every type named in `t` is one of this registry.
    pub open spec fn has_type(&self, t: Type<I>) -> bool
        decreases t,
    {
        match t {
            Type::Val(v) => self.has_val(v),
            Type::Dep(d) => self.has_dep(d),
            Type::Opt(inner) => self.has_type(*inner),
        }
    }

    /// Number of the type whose objects have the property: the type it is
    /// attached to, or else its owner.
    pub open spec fn target(&self, p: DepProp<I>) -> int {
        match self.prop_attached(p) {
            Some(t) => t.index(),
            None => p.owner_index(),
        }
    }

    /// Whether the dependency type `a` is the type `b` or has it in its
    /// base chain.
    pub open spec fn dep_is(&self, a: int, b: int) -> bool
        decreases a,
    {
        a == b || match self.base_of(a) {
            Some(base) => 0 <= base.index() < a && self.dep_is(base.index(), b),
            None => false,
        }
    }

    /// Whether a value of type `a` is a value of type `b`: the same value
    /// type, a dependency type that is `b` or has it in its base chain, or
    /// an optional type whose inner type is one of `b`'s.
    pub open spec fn type_is(&self, a: Type<I>, b: Type<I>) -> bool
        decreases a,
    {
        match (a, b) {
            (Type::Val(x), Type::Val(y)) => x == y,
            (Type::Dep(x), Type::Dep(y)) => self.dep_is(x.index(), y.index()),
            (Type::Opt(x), Type::Opt(y)) => self.type_is(*x, *y),
            _ => false,
        }
    }

    /// The default of the property for objects of type `t`: that of the
    /// first class in the base chain, from `t` on, that holds one.
    pub open spec fn def_val_of(&self, t: int, p: DepProp<I>) -> Option<Obj<I>>
        decreases t,
    {
        match self.class_def(t, p) {
            Some(v) => Some(v),
            None => match self.base_of(t) {
                Some(base) => if 0 <= base.index() < t {
                    self.def_val_of(base.index(), p)
                } else {
                    None
                },
                None => None,
            },
        }
    }

    /// The set lock of the property for objects of type `t`: that of the
    /// first class in the base chain, from `t` on, that holds one.
    pub open spec fn lock_of(&self, t: int, p: DepProp<I>) -> Option<ClassSetLock>
        decreases t,
    {
        match self.class_lock(t, p) {
            Some(lock) => Some(lock),
            None => match self.base_of(t) {
                Some(base) => if 0 <= base.index() < t {
                    self.lock_of(base.index(), p)
                } else {
                    None
                },
                None => None,
            },
        }
    }

    /// The change subscribers of the property for objects of type `t`:
    /// those of each class in the base chain, the root's first, and those
    /// of one class in the order in which they were registered.
    pub open spec fn hooks_of(&self, t: int, p: DepProp<I>) -> Seq<Hook>
        decreases t,
    {
        match self.base_of(t) {
            Some(base) => if 0 <= base.index() < t {
                self.hooks_of(base.index(), p) + self.class_hooks(t, p)
            } else {
                self.class_hooks(t, p)
            },
            None => self.class_hooks(t, p),
        }
    }

    /// The constructors to run on a new object of type `t`: those of the
    /// types in the base chain, the root's first.
    pub open spec fn ctors_of(&self, t: int) -> Seq<Hook>
        decreases t,
    {
        let above = match self.base_of(t) {
            Some(base) => if 0 <= base.index() < t {
                self.ctors_of(base.index())
            } else {
                Seq::empty()
            },
            None => Seq::empty(),
        };
        match self.ctor_of(t) {
            Some(hook) => above.push(hook),
            None => above,
        }
    }

    spec fn prop_ok(&self, t: int, k: int) -> bool {
        let d = self.dep_types@[t].props@[k];
        let p = DepProp::<I> { owner: t as usize, index: k as usize, instance: PhantomData };
        &&& self.has_type(d.val_type)
        &&& d.attached matches Some(a) ==> self.has_dep(a)
        &&& self.class_def(self.target(p), p) is Some
    }

    spec fn class_ok(&self, t: int, k: int) -> bool {
        let c = self.dep_types@[t].prop_class@[k];
        &&& self.has_prop(c.prop)
        &&& c.set_lock matches Some(lock) ==> lock.serial() < self.issued
        &&& c.def_val matches Some(v) ==> self.has_type(v.type_of()) && self.type_is(
            v.type_of(),
            self.prop_type(c.prop),
        )
    }

    spec fn names_of_props(&self, t: int) -> Seq<Seq<char>> {
        Seq::new(self.dep_types@[t].props@.len(), |k: int| self.dep_types@[t].props@[k].name@)
    }

    spec fn names_of_deps(&self) -> Seq<Seq<char>> {
        Seq::new(self.dep_types@.len(), |t: int| self.dep_types@[t].name@)
    }

    spec fn names_of_vals(&self) -> Seq<Seq<char>> {
        Seq::new(self.val_types@.len(), |i: int| self.val_types@[i].name@)
    }

    /// No name is registered twice, a base is registered before the types
    /// that build on it, every property has a default of its type for the
    /// class it is for, and every lock was issued by this registry.
    pub closed spec fn wf(&self) -> bool {
        &&& self.val_types@.len() <= usize::MAX
        &&& self.dep_types@.len() <= usize::MAX
        &&& self.names_of_vals().no_duplicates()
        &&& self.names_of_deps().no_duplicates()
        &&& forall|t: int|
            0 <= t < self.dep_types@.len() ==> {
                &&& (#[trigger] self.dep_types@[t]).base matches Some(b) ==> b.index() < t
                &&& self.dep_types@[t].props@.len() <= usize::MAX
                &&& self.names_of_props(t).no_duplicates()
                &&& class_keys_unique(self.dep_types@[t].prop_class@)
            }
        &&& forall|t: int, k: int|
            0 <= t < self.dep_types@.len() && 0 <= k < self.dep_types@[t].props@.len()
                ==> #[trigger] self.prop_ok(t, k)
        &&& forall|t: int, k: int|
            0 <= t < self.dep_types@.len() && 0 <= k < self.dep_types@[t].prop_class@.len()
                ==> #[trigger] self.class_ok(t, k)
    }

    /// What well-formedness says of the types and properties.
    pub proof fn lemma_wf(&self)
        requires
            self.wf(),
        ensures
            self.val_count() <= usize::MAX,
            self.dep_count() <= usize::MAX,
            forall|t: int|
                0 <= t < self.dep_count() ==> ((#[trigger] self.base_of(t)) matches Some(b)
                    ==> 0 <= b.index() < t),
            forall|i: int, j: int|
                0 <= i < self.val_count() && 0 <= j < self.val_count() && i != j ==> self.val_name(i)
                    != self.val_name(j),
            forall|i: int, j: int|
                0 <= i < self.dep_count() && 0 <= j < self.dep_count() && i != j ==> self.dep_name(i)
                    != self.dep_name(j),
            forall|p: DepProp<I>|
                #![trigger self.prop_type(p)]
                #![trigger self.prop_attached(p)]
                self.has_prop(p) ==> {
                    &&& self.has_type(self.prop_type(p))
                    &&& 0 <= self.target(p) < self.dep_count()
                    &&& self.class_def(self.target(p), p) is Some
                },
            forall|t: int, p: DepProp<I>|
                0 <= t < self.dep_count() ==> ((#[trigger] self.class_def(t, p)) matches Some(v)
                    ==> self.has_prop(p) && self.has_type(v.type_of()) && self.type_is(
                    v.type_of(),
                    self.prop_type(p),
                )),
            forall|t: int, p: DepProp<I>|
                0 <= t < self.dep_count() ==> ((#[trigger] self.class_lock(t, p)) matches Some(lock)
                    ==> self.has_prop(p) && lock.serial() < self.issued_count()),
            forall|t: int, p: DepProp<I>|
                0 <= t < self.dep_count() ==> ((#[trigger] self.class_hooks(t, p)).len() > 0
                    ==> self.has_prop(p)),
            forall|p: DepProp<I>, q: DepProp<I>|
                self.has_prop(p) && self.has_prop(q) && p.owner_index() == q.owner_index()
                    && #[trigger] self.prop_name(p) == #[trigger] self.prop_name(q) ==> p == q,
    {
        assert forall|t: int, p: DepProp<I>| 0 <= t < self.dep_count() implies ((
        #[trigger] self.class_hooks(t, p)).len() > 0 ==> self.has_prop(p)) by {
            if let Some(k) = class_index(self.dep_types@[t].prop_class@, p) {
                assert(self.class_ok(t, k));
            }
        }
        assert forall|p: DepProp<I>, q: DepProp<I>|
            self.has_prop(p) && self.has_prop(q) && p.owner_index() == q.owner_index()
                && #[trigger] self.prop_name(p) == #[trigger] self.prop_name(q) implies p == q by {
            let t = p.owner_index();
            assert(self.names_of_props(t)[p.number()] == self.prop_name(p));
            assert(self.names_of_props(t)[q.number()] == self.prop_name(q));
            DepProp::lemma_index(p, q);
        }
        assert forall|i: int, j: int|
            0 <= i < self.val_count() && 0 <= j < self.val_count() && i != j implies self.val_name(i)
            != self.val_name(j) by {
            assert(self.names_of_vals()[i] == self.val_name(i));
            assert(self.names_of_vals()[j] == self.val_name(j));
        }
        assert forall|i: int, j: int|
            0 <= i < self.dep_count() && 0 <= j < self.dep_count() && i != j implies self.dep_name(i)
            != self.dep_name(j) by {
            assert(self.names_of_deps()[i] == self.dep_name(i));
            assert(self.names_of_deps()[j] == self.dep_name(j));
        }
        assert forall|p: DepProp<I>|
            #![trigger self.prop_type(p)]
            #![trigger self.prop_attached(p)]
            self.has_prop(p) implies {
            &&& self.has_type(self.prop_type(p))
            &&& 0 <= self.target(p) < self.dep_count()
            &&& self.class_def(self.target(p), p) is Some
        } by {
            assert(self.prop_ok(p.owner as int, p.index as int));
            assert(p == DepProp::<I> { owner: p.owner, index: p.index, instance: PhantomData });
        }
        assert forall|t: int, p: DepProp<I>| 0 <= t < self.dep_count() implies ((
        #[trigger] self.class_def(t, p)) matches Some(v) ==> self.has_prop(p) && self.has_type(
            v.type_of(),
        ) && self.type_is(v.type_of(), self.prop_type(p))) by {
            if let Some(k) = class_index(self.dep_types@[t].prop_class@, p) {
                assert(self.class_ok(t, k));
            }
        }
        assert forall|t: int, p: DepProp<I>| 0 <= t < self.dep_count() implies ((
        #[trigger] self.class_lock(t, p)) matches Some(lock) ==> self.has_prop(p) && lock.serial()
            < self.issued_count()) by {
            if let Some(k) = class_index(self.dep_types@[t].prop_class@, p) {
                assert(self.class_ok(t, k));
            }
        }
    }

    /// A registry without types. The instance marker tells the handles of
    /// one registry from those of another.
    pub fn new(_instance: I) -> (fw: Fw<I>)
        ensures
            fw.wf(),
            fw.val_count() == 0,
            fw.dep_count() == 0,
            fw.issued_count() == 0,
    {
        Fw { val_types: Vec::new(), dep_types: Vec::new(), issued: 0 }
    }
}

impl<I> Fw<I> {
    /// Whether the dependency type is one of this registry.
    pub fn knows_dep(&self, t: DepType<I>) -> (r: bool)
        ensures
            r == self.has_dep(t),
    {
        t.0 < self.dep_types.len()
    }

    /// Whether the property is one of this registry.
    pub fn knows_prop(&self, p: DepProp<I>) -> (r: bool)
        ensures
            r == self.has_prop(p),
    {
        p.owner < self.dep_types.len() && p.index < self.dep_types[p.owner].props.len()
    }

    /// The value type with the given name.
    pub fn val_type(&self, name: &str) -> (r: Option<ValType<I>>)
        requires
            self.wf(),
        ensures
            match r {
                Some(v) => self.has_val(v) && self.val_name(v.index()) == name@,
                None => forall|i: int| 0 <= i < self.val_count() ==> self.val_name(i) != name@,
            },
    {
        let key = name.to_owned();
        let mut k: usize = 0;
        while k < self.val_types.len()
            invariant
                k <= self.val_types.len(),
                key@ == name@,
                forall|j: int| 0 <= j < k ==> self.val_types@[j].name@ != name@,
            decreases self.val_types.len() - k,
        {
            if self.val_types[k].name == key {
                return Some(ValType(k, PhantomData));
            }
            k = k + 1;
        }
        None
    }

    /// The dependency type with the given name.
    pub fn dep_type(&self, name: &str) -> (r: Option<DepType<I>>)
        requires
            self.wf(),
        ensures
            match r {
                Some(t) => self.has_dep(t) && self.dep_name(t.index()) == name@,
                None => forall|t: int| 0 <= t < self.dep_count() ==> self.dep_name(t) != name@,
            },
    {
        let key = name.to_owned();
        let mut k: usize = 0;
        while k < self.dep_types.len()
            invariant
                k <= self.dep_types.len(),
                key@ == name@,
                forall|j: int| 0 <= j < k ==> self.dep_types@[j].name@ != name@,
            decreases self.dep_types.len() - k,
        {
            if self.dep_types[k].name == key {
                return Some(DepType(k, PhantomData));
            }
            k = k + 1;
        }
        None
    }

    /// The property of the given type with the given name.
    pub fn dep_prop(&self, dep_type: DepType<I>, name: &str) -> (r: Option<DepProp<I>>)
        requires
            self.wf(),
            self.has_dep(dep_type),
        ensures
            match r {
                Some(p) => self.has_prop(p) && p.owner_index() == dep_type.index() && self.prop_name(p) == name@,
                None => forall|p: DepProp<I>|
                    self.has_prop(p) && p.owner_index() == dep_type.index() ==> self.prop_name(p)
                        != name@,
            },
    {
        let key = name.to_owned();
        let props = &self.dep_types[dep_type.0].props;
        let mut k: usize = 0;
        while k < props.len()
            invariant
                k <= props.len(),
                key@ == name@,
                self.has_dep(dep_type),
                props == &self.dep_types@[dep_type.0 as int].props,
                forall|j: int| 0 <= j < k ==> props@[j].name@ != name@,
            decreases props.len() - k,
        {
            if props[k].name == key {
                return Some(DepProp { owner: dep_type.0, index: k, instance: PhantomData });
            }
            k = k + 1;
        }
        None
    }
}

impl<I> DepType<I> {
    /// Name of the type.
    pub fn name(self, fw: &Fw<I>) -> (r: &str)
        requires
            fw.has_dep(self),
        ensures
            r@ == fw.dep_name(self.index()),
    {
        fw.dep_types[self.0].name.as_str()
    }

    /// Base of the type.
    pub fn base(self, fw: &Fw<I>) -> (r: Option<DepType<I>>)
        requires
            fw.has_dep(self),
        ensures
            r == fw.base_of(self.index()),
    {
        fw.dep_types[self.0].base
    }

    /// Whether the type is `dep_type` or has it in its base chain.
    pub fn is(self, dep_type: DepType<I>, fw: &Fw<I>) -> (r: bool)
        requires
            fw.wf(),
            fw.has_dep(self),
        ensures
            r == fw.dep_is(self.index(), dep_type.index()),
    {
        let mut base = self;
        loop
            invariant
                fw.wf(),
                fw.has_dep(base),
                fw.dep_is(self.index(), dep_type.index()) == fw.dep_is(base.index(), dep_type.index()),
            decreases base.index(),
        {
            if base.0 == dep_type.0 {
                return true;
            }
            match fw.dep_types[base.0].base {
                Some(t) => {
                    base = t;
                },
                None => {
                    return false;
                },
            }
        }
    }
}

impl<I> Type<I> {
    /// Whether a value of this type is a value of the type `type_`.
    pub fn is(&self, type_: &Type<I>, fw: &Fw<I>) -> (r: bool)
        requires
            fw.wf(),
            fw.has_type(*self),
        ensures
            r == fw.type_is(*self, *type_),
        decreases *self,
    {
        match self {
            Type::Val(v) => match type_ {
                Type::Val(o_v) => v.0 == o_v.0,
                _ => false,
            },
            Type::Dep(d) => match type_ {
                Type::Dep(o_d) => d.is(*o_d, fw),
                _ => false,
            },
            Type::Opt(t) => match type_ {
                Type::Opt(o_t) => t.is(o_t, fw),
                _ => false,
            },
        }
    }
}

impl<I> Obj<I> {
    /// Whether the value is one of the type `type_`.
    pub fn is(&self, type_: &Type<I>, fw: &Fw<I>) -> (r: bool)
        requires
            fw.wf(),
            fw.has_type(self.type_of()),
        ensures
            r == fw.type_is(self.type_of(), *type_),
    {
        self.type_().is(type_, fw)
    }
}

impl<I> DepProp<I> {
    /// Name of the property.
    pub fn name(self, fw: &Fw<I>) -> (r: &str)
        requires
            fw.has_prop(self),
        ensures
            r@ == fw.prop_name(self),
    {
        fw.dep_types[self.owner].props[self.index].name.as_str()
    }

    /// Type of the values of the property.
    pub fn val_type(self, fw: &Fw<I>) -> (r: &Type<I>)
        requires
            fw.has_prop(self),
        ensures
            *r == fw.prop_type(self),
    {
        &fw.dep_types[self.owner].props[self.index].val_type
    }

    /// The type that the property is attached to, if any.
    pub fn attached(self, fw: &Fw<I>) -> (r: Option<DepType<I>>)
        requires
            fw.has_prop(self),
        ensures
            r == fw.prop_attached(self),
    {
        fw.dep_types[self.owner].props[self.index].attached
    }

    /// The type whose objects have the property.
    pub fn target(self, fw: &Fw<I>) -> (r: DepType<I>)
        requires
            fw.has_prop(self),
        ensures
            r.index() == fw.target(self),
    {
        match self.attached(fw) {
            Some(t) => t,
            None => DepType(self.owner, PhantomData),
        }
    }
}

/// Every type is a type of its own kind.
pub proof fn law_is_reflexive<I>(fw: &Fw<I>, t: Type<I>)
    ensures
        fw.type_is(t, t),
    decreases t,
{
    match t {
        Type::Val(v) => {},
        Type::Dep(d) => {},
        Type::Opt(inner) => {
            law_is_reflexive(fw, *inner);
        },
    }
}

/// A dependency type is one of each type in the base chain of a type that
/// it is one of.
pub proof fn law_dep_is_transitive<I>(fw: &Fw<I>, a: int, b: int, c: int)
    requires
        fw.dep_is(a, b),
        fw.dep_is(b, c),
    ensures
        fw.dep_is(a, c),
    decreases a,
{
    if a != b {
        law_dep_is_transitive(fw, fw.base_of(a)->0.index(), b, c);
    }
}

/// A type is one of each type that a type it is one of is one of.
pub proof fn law_is_transitive<I>(fw: &Fw<I>, a: Type<I>, b: Type<I>, c: Type<I>)
    requires
        fw.type_is(a, b),
        fw.type_is(b, c),
    ensures
        fw.type_is(a, c),
    decreases a,
{
    match (a, b, c) {
        (Type::Dep(x), Type::Dep(y), Type::Dep(z)) => {
            law_dep_is_transitive(fw, x.index(), y.index(), z.index());
        },
        (Type::Opt(x), Type::Opt(y), Type::Opt(z)) => {
            law_is_transitive(fw, *x, *y, *z);
        },
        _ => {},
    }
}

/// A dependency type is one of the types with a number up to its own only.
pub proof fn lemma_dep_is_older<I>(fw: &Fw<I>, a: int, b: int)
    requires
        fw.dep_is(a, b),
    ensures
        b <= a,
    decreases a,
{
    if a != b {
        lemma_dep_is_older(fw, fw.base_of(a)->0.index(), b);
    }
}

/// Two dependency types that are each one of the other are the same; so
/// types with different roots are never one of the other.
pub proof fn law_dep_is_antisymmetric<I>(fw: &Fw<I>, a: int, b: int)
    requires
        fw.dep_is(a, b),
        fw.dep_is(b, a),
    ensures
        a == b,
{
    lemma_dep_is_older(fw, a, b);
    lemma_dep_is_older(fw, b, a);
}

/// Two types that are each one of the other are the same.
pub proof fn law_is_antisymmetric<I>(fw: &Fw<I>, a: Type<I>, b: Type<I>)
    requires
        fw.type_is(a, b),
        fw.type_is(b, a),
    ensures
        a == b,
    decreases a,
{
    match (a, b) {
        (Type::Val(x), Type::Val(y)) => {
            ValType::lemma_index(x, y);
        },
        (Type::Dep(x), Type::Dep(y)) => {
            law_dep_is_antisymmetric(fw, x.index(), y.index());
            DepType::lemma_index(x, y);
        },
        (Type::Opt(x), Type::Opt(y)) => {
            law_is_antisymmetric(fw, *x, *y);
        },
        _ => {},
    }
}

/// An optional type is one of another exactly when its inner type is one
/// of the other's inner type.
pub proof fn law_opt_is<I>(fw: &Fw<I>, a: Type<I>, b: Type<I>)
    ensures
        fw.type_is(Type::Opt(Box::new(a)), Type::Opt(Box::new(b))) <==> fw.type_is(a, b),
{
}

/// In a list without two records for one property, the record for a
/// property is found where it stands.
proof fn lemma_class_index<I>(classes: Seq<DepPropClass<I>>, p: DepProp<I>, k: int)
    requires
        class_keys_unique(classes),
        0 <= k < classes.len(),
        classes[k].prop == p,
    ensures
        class_index(classes, p) == Some(k),
{
}

/// Place of the record for `p` in the list.
fn find_class<I>(classes: &Vec<DepPropClass<I>>, p: DepProp<I>) -> (r: Option<usize>)
    requires
        class_keys_unique(classes@),
    ensures
        r matches Some(k) ==> k < classes@.len() && classes@[k as int].prop == p,
        match r {
            Some(k) => class_index(classes@, p) == Some(k as int),
            None => class_index(classes@, p) is None,
        },
{
    let mut k: usize = 0;
    while k < classes.len()
        invariant
            k <= classes.len(),
            class_keys_unique(classes@),
            forall|j: int| 0 <= j < k ==> (#[trigger] classes@[j]).prop != p,
        decreases classes.len() - k,
    {
        if classes[k].prop.owner == p.owner && classes[k].prop.index == p.index {
            proof {
                lemma_class_index(classes@, p, k as int);
            }
            return Some(k);
        }
        k = k + 1;
    }
    None
}

/// The list holds the records of `old` in their places, for the same
/// properties and with the defaults they had, and maybe more.
spec fn list_grown<I>(new: Seq<DepPropClass<I>>, old: Seq<DepPropClass<I>>) -> bool {
    &&& new.len() >= old.len()
    &&& forall|k: int|
        0 <= k < old.len() ==> (#[trigger] new[k]).prop == old[k].prop && (old[k].def_val is Some
            ==> new[k].def_val == old[k].def_val)
}

impl<I> Fw<I> {
    /// The registry holds what `old` held, and maybe more.
    spec fn grown(&self, old: &Fw<I>) -> bool {
        &&& self.issued >= old.issued
        &&& self.val_types@.len() >= old.val_types@.len()
        &&& self.dep_types@.len() >= old.dep_types@.len()
        &&& forall|t: int|
            0 <= t < old.dep_types@.len() ==> {
                &&& (#[trigger] self.dep_types@[t]).base == old.dep_types@[t].base
                &&& self.dep_types@[t].props@.len() >= old.dep_types@[t].props@.len()
                &&& list_grown(self.dep_types@[t].prop_class@, old.dep_types@[t].prop_class@)
                &&& class_keys_unique(self.dep_types@[t].prop_class@)
            }
        &&& forall|t: int, k: int|
            0 <= t < old.dep_types@.len() && 0 <= k < old.dep_types@[t].props@.len()
                ==> #[trigger] self.dep_types@[t].props@[k] == old.dep_types@[t].props@[k]
    }

    proof fn lemma_grown_dep_is(&self, old: &Fw<I>, a: int, b: int)
        requires
            self.grown(old),
            0 <= a < old.dep_count(),
        ensures
            self.dep_is(a, b) == old.dep_is(a, b),
        decreases a,
    {
        assert(self.dep_types@[a].base == old.dep_types@[a].base);
        if a != b {
            if let Some(base) = old.base_of(a) {
                if 0 <= base.index() < a {
                    self.lemma_grown_dep_is(old, base.index(), b);
                }
            }
        }
    }

    proof fn lemma_grown_type(&self, old: &Fw<I>, a: Type<I>, b: Type<I>)
        requires
            self.grown(old),
            old.has_type(a),
        ensures
            self.has_type(a),
            self.type_is(a, b) == old.type_is(a, b),
        decreases a,
    {
        match a {
            Type::Val(x) => {},
            Type::Dep(x) => {
                if let Type::Dep(y) = b {
                    self.lemma_grown_dep_is(old, x.index(), y.index());
                }
            },
            Type::Opt(x) => {
                if let Type::Opt(y) = b {
                    self.lemma_grown_type(old, *x, *y);
                } else {
                    self.lemma_grown_type(old, *x, b);
                }
            },
        }
    }

    proof fn lemma_grown_def(&self, old: &Fw<I>, t: int, p: DepProp<I>)
        requires
            self.grown(old),
            old.wf(),
            0 <= t < old.dep_count(),
            old.class_def(t, p) is Some,
        ensures
            self.class_def(t, p) == old.class_def(t, p),
    {
        let k = class_index(old.dep_types@[t].prop_class@, p)->0;
        assert(self.dep_types@[t].prop_class@[k].prop == p);
        lemma_class_index(self.dep_types@[t].prop_class@, p, k);
    }

    proof fn lemma_grown_prop_ok(&self, old: &Fw<I>, t: int, k: int)
        requires
            self.grown(old),
            old.wf(),
            0 <= t < old.dep_types@.len(),
            0 <= k < old.dep_types@[t].props@.len(),
        ensures
            self.prop_ok(t, k),
    {
        assert(old.prop_ok(t, k));
        assert(self.dep_types@[t].props@[k] == old.dep_types@[t].props@[k]);
        let d = old.dep_types@[t].props@[k];
        let p = DepProp::<I> { owner: t as usize, index: k as usize, instance: PhantomData };
        self.lemma_grown_type(old, d.val_type, d.val_type);
        assert(self.target(p) == old.target(p));
        self.lemma_grown_def(old, old.target(p), p);
    }

    proof fn lemma_grown_class_ok(&self, old: &Fw<I>, t: int, k: int)
        requires
            self.grown(old),
            old.wf(),
            0 <= t < old.dep_types@.len(),
            0 <= k < old.dep_types@[t].prop_class@.len(),
            self.dep_types@[t].prop_class@[k].def_val == old.dep_types@[t].prop_class@[k].def_val,
            self.dep_types@[t].prop_class@[k].set_lock == old.dep_types@[t].prop_class@[k].set_lock,
        ensures
            self.class_ok(t, k),
    {
        assert(old.class_ok(t, k));
        let c = old.dep_types@[t].prop_class@[k];
        assert(self.dep_types@[t].prop_class@[k].prop == c.prop);
        let o = c.prop.owner as int;
        assert(self.dep_types@[o].props@[c.prop.index as int] == old.dep_types@[o].props@[c.prop.index as int]);
        if let Some(v) = c.def_val {
            self.lemma_grown_type(old, v.type_of(), old.prop_type(c.prop));
        }
    }

    /// The value type with the number `i` accepts, reads and writes what
    /// it does in `old`.
    pub open spec fn same_desc(&self, old: &Fw<I>, i: int) -> bool {
        &&& forall|s: &str| #[trigger] self.val_accepts(i, s) == old.val_accepts(i, s)
        &&& forall|s: &str, p: &Payload| #[trigger] self.val_reads(i, s, p) == old.val_reads(i, s, p)
        &&& forall|p: &Payload, text: &String| #[trigger]
            self.val_writes(i, p, text) == old.val_writes(i, p, text)
    }

    /// The value types are those of `old`.
    pub open spec fn same_vals(&self, old: &Fw<I>) -> bool {
        &&& self.val_count() == old.val_count()
        &&& forall|i: int| 0 <= i < old.val_count() ==> self.val_name(i) == old.val_name(i)
        &&& forall|i: int| 0 <= i < old.val_count() ==> #[trigger] self.same_desc(old, i)
    }

    /// The dependency type with the number `t` is registered as in `old`,
    /// and the properties that it had it has still.
    pub open spec fn same_type(&self, old: &Fw<I>, t: int) -> bool {
        &&& self.base_of(t) == old.base_of(t)
        &&& self.dep_name(t) == old.dep_name(t)
        &&& self.ctor_of(t) == old.ctor_of(t)
        &&& self.prop_count(t) >= old.prop_count(t)
        &&& forall|p: DepProp<I>|
            #![trigger self.prop_type(p)]
            #![trigger self.prop_name(p)]
            #![trigger self.prop_attached(p)]
            p.owner_index() == t && p.number() < old.prop_count(t) ==> {
                &&& self.prop_name(p) == old.prop_name(p)
                &&& self.prop_type(p) == old.prop_type(p)
                &&& self.prop_attached(p) == old.prop_attached(p)
            }
    }

    /// The class with the number `t` holds for every property but `but`
    /// what it held in `old`.
    pub open spec fn same_class(&self, old: &Fw<I>, t: int, but: Option<DepProp<I>>) -> bool {
        forall|p: DepProp<I>|
            #![trigger self.class_def(t, p)]
            #![trigger self.class_lock(t, p)]
            #![trigger self.class_hooks(t, p)]
            but != Some(p) ==> {
                &&& self.class_def(t, p) == old.class_def(t, p)
                &&& self.class_lock(t, p) == old.class_lock(t, p)
                &&& self.class_hooks(t, p) == old.class_hooks(t, p)
            }
    }

    /// Every dependency type has as many properties as in `old`.
    pub open spec fn same_props(&self, old: &Fw<I>) -> bool {
        forall|t: int| 0 <= t < old.dep_count() ==> #[trigger] self.prop_count(t) == old.prop_count(t)
    }

    /// The registry holds the types and properties that `old` held, and
    /// every class holds what it held but for what the class `at` holds
    /// for the property `but`.
    pub open spec fn same_but(&self, old: &Fw<I>, at: int, but: Option<DepProp<I>>) -> bool {
        &&& self.same_vals(old)
        &&& self.dep_count() == old.dep_count()
        &&& forall|t: int| 0 <= t < old.dep_count() ==> #[trigger] self.same_type(old, t)
        &&& forall|t: int|
            0 <= t < old.dep_count() && t != at ==> #[trigger] self.same_class(old, t, None)
        &&& 0 <= at < old.dep_count() ==> self.same_class(old, at, but)
    }

    /// A registry whose lists are those of `old` holds what it held.
    proof fn lemma_same_lists(&self, old: &Fw<I>)
        requires
            old.wf(),
            self.dep_types@ == old.dep_types@,
            self.val_types@ == old.val_types@,
            self.issued >= old.issued,
        ensures
            self.wf(),
            self.same_but(old, 0, None),
            self.same_props(old),
    {
        assert(self.grown(old));
        assert(self.names_of_vals() =~= old.names_of_vals());
        assert(self.names_of_deps() =~= old.names_of_deps());
        assert forall|t: int| 0 <= t < self.dep_types@.len() implies {
            &&& (#[trigger] self.dep_types@[t]).base matches Some(b) ==> b.index() < t
            &&& self.dep_types@[t].props@.len() <= usize::MAX
            &&& self.names_of_props(t).no_duplicates()
            &&& class_keys_unique(self.dep_types@[t].prop_class@)
        } by {
            assert(self.names_of_props(t) =~= old.names_of_props(t));
        }
        assert forall|t: int, k: int|
            0 <= t < self.dep_types@.len() && 0 <= k < self.dep_types@[t].props@.len()
                implies #[trigger] self.prop_ok(t, k) by {
            self.lemma_grown_prop_ok(old, t, k);
        }
        assert forall|t: int, k: int|
            0 <= t < self.dep_types@.len() && 0 <= k < self.dep_types@[t].prop_class@.len()
                implies #[trigger] self.class_ok(t, k) by {
            self.lemma_grown_class_ok(old, t, k);
        }
        assert forall|t: int| 0 <= t < old.dep_count() implies #[trigger] self.same_type(old, t) by {}
    }

    /// Issues an identity.
    fn issue(&mut self) -> (u: Unique)
        requires
            old(self).wf(),
            old(self).issued_count() < u64::MAX,
        ensures
            final(self).wf(),
            u.serial() == old(self).issued_count(),
            final(self).issued_count() == old(self).issued_count() + 1,
            final(self).same_but(old(self), 0, None),
            final(self).same_props(old(self)),
            final(self).dep_types == old(self).dep_types,
            final(self).val_types == old(self).val_types,
    {
        let u = Unique { id: self.issued };
        self.issued = self.issued + 1;
        proof {
            self.lemma_same_lists(old(self));
        }
        u
    }
}

impl Unique {
    /// An identity that the registry has not issued before.
    pub fn new<I>(fw: &mut Fw<I>) -> (u: Unique)
        requires
            old(fw).wf(),
            old(fw).issued_count() < u64::MAX,
        ensures
            final(fw).wf(),
            u.serial() == old(fw).issued_count(),
            final(fw).issued_count() == old(fw).issued_count() + 1,
            final(fw).same_but(old(fw), 0, None),
            final(fw).same_props(old(fw)),
    {
        fw.issue()
    }
}

impl DepObjDataKey {
    /// A key that the registry has not issued before.
    pub fn new<I>(fw: &mut Fw<I>) -> (key: DepObjDataKey)
        requires
            old(fw).wf(),
            old(fw).issued_count() < u64::MAX,
        ensures
            final(fw).wf(),
            key.serial() == old(fw).issued_count(),
            final(fw).issued_count() == old(fw).issued_count() + 1,
            final(fw).same_but(old(fw), 0, None),
            final(fw).same_props(old(fw)),
    {
        DepObjDataKey(fw.issue())
    }
}

impl<I> Fw<I> {
    /// Whether a value type has the name.
    pub open spec fn val_named(&self, name: Seq<char>) -> bool {
        exists|i: int| 0 <= i < self.val_count() && #[trigger] self.val_name(i) == name
    }

    /// Whether a dependency type has the name.
    pub open spec fn dep_named(&self, name: Seq<char>) -> bool {
        exists|t: int| 0 <= t < self.dep_count() && #[trigger] self.dep_name(t) == name
    }

    /// Whether a property of the type with the number `t` has the name.
    pub open spec fn prop_named(&self, t: int, name: Seq<char>) -> bool {
        exists|p: DepProp<I>|
            p.owner_index() == t && 0 <= p.number() < self.prop_count(t) && #[trigger] self.prop_name(p) == name
    }

    /// The registry holds what `old` held and one more value type, which
    /// has the given name.
    pub open spec fn with_val(&self, old: &Fw<I>, name: Seq<char>) -> bool {
        &&& self.val_count() == old.val_count() + 1
        &&& forall|i: int| 0 <= i < old.val_count() ==> self.val_name(i) == old.val_name(i)
        &&& forall|i: int| 0 <= i < old.val_count() ==> #[trigger] self.same_desc(old, i)
        &&& self.val_name(old.val_count() as int) == name
        &&& self.dep_count() == old.dep_count()
        &&& self.same_props(old)
        &&& self.issued_count() == old.issued_count()
        &&& forall|t: int| 0 <= t < old.dep_count() ==> #[trigger] self.same_type(old, t)
        &&& forall|t: int| 0 <= t < old.dep_count() ==> #[trigger] self.same_class(old, t, None)
    }

    /// Registers a value type under the given name, with a description
    /// that is held: the type accepts, reads and writes what the
    /// description does. Returns `None`, and changes nothing, where a value
    /// type has the name already, or where the registry holds as many value
    /// types as can be numbered.
    pub fn reg_held_named(&mut self, name: String, desc: Held<Box<dyn ValTypeDesc<I>>>) -> (r: Option<
        ValType<I>,
    >)
        requires
            old(self).wf(),
        ensures
            final(self).wf(),
            r is Some <==> !old(self).val_named(name@) && old(self).val_count() < usize::MAX,
            match r {
                Some(v) => {
                    &&& v.index() == old(self).val_count()
                    &&& final(self).with_val(old(self), name@)
                    &&& forall|s: &str| #[trigger]
                        final(self).val_accepts(v.index() as int, s) == desc.it.accepts(s)
                    &&& forall|s: &str, p: &Payload| #[trigger]
                        final(self).val_reads(v.index() as int, s, p) == desc.it.reads(s, p)
                    &&& forall|p: &Payload, text: &String| #[trigger]
                        final(self).val_writes(v.index() as int, p, text) == desc.it.writes(p, text)
                },
                None => *final(self) == *old(self),
            },
    {
        if let Some(v) = self.val_type(name.as_str()) {
            return None;
        }
        let index = self.val_types.len();
        if index == usize::MAX {
            return None;
        }
        let entry = ValTypeEntry::new(name, desc);
        self.val_types.push(entry);
        proof {
            assert(self.grown(old(self)));
            let before = old(self).names_of_vals();
            let after = self.names_of_vals();
            assert(after =~= before.push(name@));
            assert forall|i: int, j: int|
                0 <= i < after.len() && 0 <= j < after.len() && i != j implies after[i]
                != after[j] by {
                if i < before.len() && j < before.len() {
                    assert(before[i] != before[j]);
                } else if i < before.len() {
                    assert(old(self).val_name(i) != name@);
                } else {
                    assert(old(self).val_name(j) != name@);
                }
            }
            assert(self.names_of_deps() =~= old(self).names_of_deps());
            assert forall|t: int| 0 <= t < self.dep_types@.len() implies {
                &&& (#[trigger] self.dep_types@[t]).base matches Some(b) ==> b.index() < t
                &&& self.dep_types@[t].props@.len() <= usize::MAX
                &&& self.names_of_props(t).no_duplicates()
                &&& class_keys_unique(self.dep_types@[t].prop_class@)
            } by {
                assert(self.names_of_props(t) =~= old(self).names_of_props(t));
            }
            assert forall|t: int, k: int|
                0 <= t < self.dep_types@.len() && 0 <= k < self.dep_types@[t].props@.len()
                    implies #[trigger] self.prop_ok(t, k) by {
                self.lemma_grown_prop_ok(old(self), t, k);
            }
            assert forall|t: int, k: int|
                0 <= t < self.dep_types@.len() && 0 <= k < self.dep_types@[t].prop_class@.len()
                    implies #[trigger] self.class_ok(t, k) by {
                self.lemma_grown_class_ok(old(self), t, k);
            }
            assert forall|t: int| 0 <= t < old(self).dep_count() implies #[trigger] self.same_type(
                old(self),
                t,
            ) by {}
        }
        Some(ValType(index, PhantomData))
    }

    /// Registers a value type under the name that its description gives,
    /// with a description that is held: the type accepts, reads and writes
    /// what the description does. Returns `None`, and changes nothing,
    /// where a value type has that name already, or where the registry
    /// holds as many value types as can be numbered.
    pub fn reg_held(&mut self, desc: Held<Box<dyn ValTypeDesc<I>>>) -> (r: Option<ValType<I>>)
        requires
            old(self).wf(),
        ensures
            final(self).wf(),
            r is Some <==> !old(self).val_named(desc.it.name_model()@) && old(self).val_count()
                < usize::MAX,
            match r {
                Some(v) => {
                    &&& v.index() == old(self).val_count()
                    &&& final(self).with_val(old(self), desc.it.name_model()@)
                    &&& forall|s: &str| #[trigger]
                        final(self).val_accepts(v.index() as int, s) == desc.it.accepts(s)
                    &&& forall|s: &str, p: &Payload| #[trigger]
                        final(self).val_reads(v.index() as int, s, p) == desc.it.reads(s, p)
                    &&& forall|p: &Payload, text: &String| #[trigger]
                        final(self).val_writes(v.index() as int, p, text) == desc.it.writes(p, text)
                },
                None => *final(self) == *old(self),
            },
    {
        let name = desc.it.name().to_owned();
        self.reg_held_named(name, desc)
    }

    /// Registers a value type under the given name: the type accepts,
    /// reads and writes what the description does. Returns `None`, and
    /// changes nothing, where a value type has the name already, or where
    /// the registry holds as many value types as can be numbered.
    ///
    /// What is said of the description reaches a caller who boxes it in
    /// the call. A caller who has a boxed description holds it and calls
    /// [`Fw::reg_held_named`].
    pub fn reg_val_type_named(&mut self, name: String, desc: Box<dyn ValTypeDesc<I>>) -> (r: Option<
        ValType<I>,
    >)
        requires
            old(self).wf(),
        ensures
            final(self).wf(),
            r is Some <==> !old(self).val_named(name@) && old(self).val_count() < usize::MAX,
            match r {
                Some(v) => {
                    &&& v.index() == old(self).val_count()
                    &&& final(self).with_val(old(self), name@)
                    &&& forall|s: &str| #[trigger]
                        final(self).val_accepts(v.index() as int, s) == desc.accepts(s)
                    &&& forall|s: &str, p: &Payload| #[trigger]
                        final(self).val_reads(v.index() as int, s, p) == desc.reads(s, p)
                    &&& forall|p: &Payload, text: &String| #[trigger]
                        final(self).val_writes(v.index() as int, p, text) == desc.writes(p, text)
                },
                None => *final(self) == *old(self),
            },
    {
        let held = hold(desc);
        self.reg_held_named(name, held)
    }

    /// Registers a value type under the name that its description gives:
    /// the type accepts, reads and writes what the description does.
    /// Returns `None`, and changes nothing, where a value type has that
    /// name already, or where the registry holds as many value types as
    /// can be numbered.
    ///
    /// What is said of the description reaches a caller who boxes it in
    /// the call. A caller who has a boxed description holds it and calls
    /// [`Fw::reg_held`].
    pub fn reg_val_type(&mut self, desc: Box<dyn ValTypeDesc<I>>) -> (r: Option<ValType<I>>)
        requires
            old(self).wf(),
        ensures
            final(self).wf(),
            r is Some <==> !old(self).val_named(desc.name_model()@) && old(self).val_count()
                < usize::MAX,
            match r {
                Some(v) => {
                    &&& v.index() == old(self).val_count()
                    &&& final(self).with_val(old(self), desc.name_model()@)
                    &&& forall|s: &str| #[trigger]
                        final(self).val_accepts(v.index() as int, s) == desc.accepts(s)
                    &&& forall|s: &str, p: &Payload| #[trigger]
                        final(self).val_reads(v.index() as int, s, p) == desc.reads(s, p)
                    &&& forall|p: &Payload, text: &String| #[trigger]
                        final(self).val_writes(v.index() as int, p, text) == desc.writes(p, text)
                },
                None => *final(self) == *old(self),
            },
    {
        let held = hold(desc);
        self.reg_held(held)
    }

    /// The registry holds what `old` held and one more dependency type.
    pub open spec fn with_dep(
        &self,
        old: &Fw<I>,
        name: Seq<char>,
        base: Option<DepType<I>>,
        ctor: Option<Hook>,
    ) -> bool {
        let t = old.dep_count() as int;
        &&& self.same_vals(old)
        &&& self.dep_count() == old.dep_count() + 1
        &&& self.same_props(old)
        &&& self.issued_count() == old.issued_count()
        &&& forall|t: int| 0 <= t < old.dep_count() ==> #[trigger] self.same_type(old, t)
        &&& forall|t: int| 0 <= t < old.dep_count() ==> #[trigger] self.same_class(old, t, None)
        &&& self.dep_name(t) == name
        &&& self.base_of(t) == base
        &&& self.ctor_of(t) == ctor
        &&& self.prop_count(t) == 0
        &&& forall|p: DepProp<I>|
            #![trigger self.class_def(t, p)]
            #![trigger self.class_lock(t, p)]
            #![trigger self.class_hooks(t, p)]
            self.class_def(t, p) is None && self.class_lock(t, p) is None && self.class_hooks(t, p)
                == Seq::<Hook>::empty()
    }

    /// Registers a dependency type with a name that no dependency type
    /// has yet, a base that is registered, and maybe a constructor.
    pub fn reg_dep_type(&mut self, name: String, base: Option<DepType<I>>, ctor: Option<Hook>) -> (r:
        DepType<I>)
        requires
            old(self).wf(),
            !old(self).dep_named(name@),
            base matches Some(b) ==> old(self).has_dep(b),
            old(self).dep_count() < usize::MAX,
        ensures
            final(self).wf(),
            r.index() == old(self).dep_count(),
            final(self).with_dep(old(self), name@, base, ctor),
    {
        let index = self.dep_types.len();
        self.dep_types.push(
            DepTypeDesc { base, name, props: Vec::new(), prop_class: Vec::new(), ctor },
        );
        proof {
            assert(self.grown(old(self)));
            assert(self.names_of_vals() =~= old(self).names_of_vals());
            let before = old(self).names_of_deps();
            let after = self.names_of_deps();
            assert(after =~= before.push(name@));
            assert forall|i: int, j: int|
                0 <= i < after.len() && 0 <= j < after.len() && i != j implies after[i]
                != after[j] by {
                if i < before.len() && j < before.len() {
                    assert(before[i] != before[j]);
                } else if i < before.len() {
                    assert(old(self).dep_name(i) != name@);
                } else {
                    assert(old(self).dep_name(j) != name@);
                }
            }
            assert forall|t: int| 0 <= t < self.dep_types@.len() implies {
                &&& (#[trigger] self.dep_types@[t]).base matches Some(b) ==> b.index() < t
                &&& self.dep_types@[t].props@.len() <= usize::MAX
                &&& self.names_of_props(t).no_duplicates()
                &&& class_keys_unique(self.dep_types@[t].prop_class@)
            } by {
                if t < index {
                    assert(self.names_of_props(t) =~= old(self).names_of_props(t));
                }
            }
            assert forall|t: int, k: int|
                0 <= t < self.dep_types@.len() && 0 <= k < self.dep_types@[t].props@.len()
                    implies #[trigger] self.prop_ok(t, k) by {
                self.lemma_grown_prop_ok(old(self), t, k);
            }
            assert forall|t: int, k: int|
                0 <= t < self.dep_types@.len() && 0 <= k < self.dep_types@[t].prop_class@.len()
                    implies #[trigger] self.class_ok(t, k) by {
                self.lemma_grown_class_ok(old(self), t, k);
            }
            assert forall|t: int| 0 <= t < old(self).dep_count() implies #[trigger] self.same_type(
                old(self),
                t,
            ) by {}
        }
        DepType(index, PhantomData)
    }
}

impl<I> DepPropClass<I> {
    fn new(prop: DepProp<I>) -> (r: DepPropClass<I>)
        ensures
            r.prop == prop,
            r.def_val is None,
            r.set_lock is None,
            r.on_changed@ == Seq::<Hook>::empty(),
    {
        DepPropClass { prop, def_val: None, set_lock: None, on_changed: Vec::new() }
    }
}

impl<I> Fw<I> {
    /// What the accessors say of a class, from its list of records.
    proof fn lemma_class_at(&self, t: int, p: DepProp<I>, k: int)
        requires
            class_keys_unique(self.dep_types@[t].prop_class@),
            0 <= k < self.dep_types@[t].prop_class@.len(),
            self.dep_types@[t].prop_class@[k].prop == p,
        ensures
            self.class_def(t, p) == self.dep_types@[t].prop_class@[k].def_val,
            self.class_lock(t, p) == self.dep_types@[t].prop_class@[k].set_lock,
            self.class_hooks(t, p) == self.dep_types@[t].prop_class@[k].on_changed@,
    {
        lemma_class_index(self.dep_types@[t].prop_class@, p, k);
    }

    /// A class whose records are for the properties they were for, with
    /// all but the record at `k` as they were, holds what it held for
    /// every property but that of the record at `k`; records added at the
    /// end hold nothing.
    proof fn lemma_class_kept(&self, old: &Fw<I>, t: int, k: int)
        requires
            0 <= t < old.dep_types@.len(),
            self.dep_types@.len() == old.dep_types@.len(),
            class_keys_unique(old.dep_types@[t].prop_class@),
            class_keys_unique(self.dep_types@[t].prop_class@),
            self.dep_types@[t].prop_class@.len() >= old.dep_types@[t].prop_class@.len(),
            forall|j: int|
                0 <= j < old.dep_types@[t].prop_class@.len() ==> (
                #[trigger] self.dep_types@[t].prop_class@[j]).prop
                    == old.dep_types@[t].prop_class@[j].prop,
            forall|j: int|
                0 <= j < old.dep_types@[t].prop_class@.len() && j != k ==> (
                #[trigger] self.dep_types@[t].prop_class@[j]) == old.dep_types@[t].prop_class@[j],
            forall|j: int|
                old.dep_types@[t].prop_class@.len() <= j < self.dep_types@[t].prop_class@.len() && j
                    != k ==> {
                    &&& (#[trigger] self.dep_types@[t].prop_class@[j]).def_val is None
                    &&& self.dep_types@[t].prop_class@[j].set_lock is None
                    &&& self.dep_types@[t].prop_class@[j].on_changed@ == Seq::<Hook>::empty()
                },
        ensures
            self.same_class(
                old,
                t,
                if 0 <= k < self.dep_types@[t].prop_class@.len() {
                    Some(self.dep_types@[t].prop_class@[k].prop)
                } else {
                    None
                },
            ),
    {
        let new_list = self.dep_types@[t].prop_class@;
        let old_list = old.dep_types@[t].prop_class@;
        assert forall|p: DepProp<I>|
            #![trigger self.class_def(t, p)]
            #![trigger self.class_lock(t, p)]
            #![trigger self.class_hooks(t, p)]
            !(0 <= k < new_list.len() && new_list[k].prop == p) implies {
            &&& self.class_def(t, p) == old.class_def(t, p)
            &&& self.class_lock(t, p) == old.class_lock(t, p)
            &&& self.class_hooks(t, p) == old.class_hooks(t, p)
        } by {
            match class_index(old_list, p) {
                Some(j) => {
                    assert(new_list[j].prop == p);
                    self.lemma_class_at(t, p, j);
                },
                None => {
                    match class_index(new_list, p) {
                        Some(j) => {
                            if j < old_list.len() {
                                assert(old_list[j].prop == p);
                            }
                        },
                        None => {},
                    }
                },
            }
        }
    }

    /// Place of the record that the class `t` holds for the property; the
    /// class gets an empty record where it held none.
    fn dep_prop_class(&mut self, t: usize, p: DepProp<I>) -> (k: usize)
        requires
            old(self).wf(),
            t < old(self).dep_types@.len(),
            old(self).has_prop(p),
        ensures
            final(self).wf(),
            final(self).grown(old(self)),
            final(self).same_but(old(self), 0, None),
            final(self).same_props(old(self)),
            final(self).issued == old(self).issued,
            k < final(self).dep_types@[t as int].prop_class@.len(),
            final(self).dep_types@[t as int].prop_class@[k as int].prop == p,
            final(self).dep_types@[t as int].prop_class@[k as int].def_val == old(self).class_def(
                t as int,
                p,
            ),
            final(self).dep_types@[t as int].prop_class@[k as int].set_lock == old(self).class_lock(
                t as int,
                p,
            ),
            final(self).dep_types@[t as int].prop_class@[k as int].on_changed@ == old(self).class_hooks(t as int, p),
    {
        if let Some(k) = find_class(&self.dep_types[t].prop_class, p) {
            proof {
                self.lemma_same_lists(old(self));
            }
            return k;
        }
        let k = self.dep_types[t].prop_class.len();
        let record = DepPropClass::new(p);
        self.dep_types[t].prop_class.push(record);
        proof {
            let before = old(self).dep_types@[t as int].prop_class@;
            let after = self.dep_types@[t as int].prop_class@;
            assert(after == before.push(record));
            assert(class_keys_unique(after)) by {
                assert forall|i: int, j: int|
                    0 <= i < after.len() && 0 <= j < after.len() && i != j implies (
                #[trigger] after[i]).prop != (#[trigger] after[j]).prop by {
                    if i < before.len() && j < before.len() {
                        assert(before[i].prop != before[j].prop);
                    }
                }
            }
            assert forall|u: int| 0 <= u < old(self).dep_types@.len() implies {
                &&& (#[trigger] self.dep_types@[u]).base == old(self).dep_types@[u].base
                &&& self.dep_types@[u].props@.len() >= old(self).dep_types@[u].props@.len()
                &&& list_grown(self.dep_types@[u].prop_class@, old(self).dep_types@[u].prop_class@)
                &&& class_keys_unique(self.dep_types@[u].prop_class@)
            } by {}
            assert(self.grown(old(self)));
            self.lemma_wf_grown(old(self), t as int, k as int);
            assert forall|u: int| 0 <= u < old(self).dep_count() implies #[trigger] self.same_type(
                old(self),
                u,
            ) by {}
            assert forall|u: int| 0 <= u < old(self).dep_count() implies #[trigger] self.same_class(
                old(self),
                u,
                None,
            ) by {
                if u == t {
                    self.lemma_class_kept(old(self), u, after.len() as int);
                } else {
                    self.lemma_class_kept(old(self), u, -1);
                }
            }
        }
        k
    }

    /// A registry with the types and properties of `old`, whose classes
    /// hold the records of `old` but for one that was added or changed, is
    /// well-formed if that record is.
    proof fn lemma_wf_grown(&self, old: &Fw<I>, at: int, k: int)
        requires
            old.wf(),
            self.grown(old),
            self.val_types@ == old.val_types@,
            self.dep_types@.len() == old.dep_types@.len(),
            forall|t: int|
                0 <= t < old.dep_types@.len() ==> {
                    &&& (#[trigger] self.dep_types@[t]).name == old.dep_types@[t].name
                    &&& self.dep_types@[t].props@ == old.dep_types@[t].props@
                },
            forall|t: int, j: int|
                0 <= t < self.dep_types@.len() && 0 <= j < self.dep_types@[t].prop_class@.len() && !(t
                    == at && j == k) ==> {
                    &&& j < old.dep_types@[t].prop_class@.len()
                    &&& (#[trigger] self.dep_types@[t].prop_class@[j]).def_val
                        == old.dep_types@[t].prop_class@[j].def_val
                    &&& self.dep_types@[t].prop_class@[j].set_lock
                        == old.dep_types@[t].prop_class@[j].set_lock
                },
            0 <= at < self.dep_types@.len() && 0 <= k < self.dep_types@[at].prop_class@.len()
                ==> self.class_ok(at, k),
        ensures
            self.wf(),
    {
        assert(self.names_of_vals() =~= old.names_of_vals());
        assert(self.names_of_deps() =~= old.names_of_deps());
        assert forall|t: int| 0 <= t < self.dep_types@.len() implies {
            &&& (#[trigger] self.dep_types@[t]).base matches Some(b) ==> b.index() < t
            &&& self.dep_types@[t].props@.len() <= usize::MAX
            &&& self.names_of_props(t).no_duplicates()
            &&& class_keys_unique(self.dep_types@[t].prop_class@)
        } by {
            assert(self.names_of_props(t) =~= old.names_of_props(t));
        }
        assert forall|t: int, j: int|
            0 <= t < self.dep_types@.len() && 0 <= j < self.dep_types@[t].props@.len()
                implies #[trigger] self.prop_ok(t, j) by {
            self.lemma_grown_prop_ok(old, t, j);
        }
        assert forall|t: int, j: int|
            0 <= t < self.dep_types@.len() && 0 <= j < self.dep_types@[t].prop_class@.len()
                implies #[trigger] self.class_ok(t, j) by {
            if !(t == at && j == k) {
                self.lemma_grown_class_ok(old, t, j);
            }
        }
    }
}

impl<I> Fw<I> {
    /// After a record of the class `t` changed, the class holds for the
    /// property of the record what the record holds, and all else is as it
    /// was.
    proof fn lemma_record_set(&self, old: &Fw<I>, t: int, k: int)
        requires
            old.wf(),
            0 <= t < old.dep_types@.len(),
            0 <= k < old.dep_types@[t].prop_class@.len(),
            self.val_types@ == old.val_types@,
            self.issued == old.issued,
            self.dep_types@.len() == old.dep_types@.len(),
            forall|u: int|
                0 <= u < old.dep_types@.len() && u != t ==> #[trigger] self.dep_types@[u]
                    == old.dep_types@[u],
            self.dep_types@[t].base == old.dep_types@[t].base,
            self.dep_types@[t].name == old.dep_types@[t].name,
            self.dep_types@[t].ctor == old.dep_types@[t].ctor,
            self.dep_types@[t].props@ == old.dep_types@[t].props@,
            self.dep_types@[t].prop_class@.len() == old.dep_types@[t].prop_class@.len(),
            forall|j: int|
                0 <= j < old.dep_types@[t].prop_class@.len() && j != k ==> (
                #[trigger] self.dep_types@[t].prop_class@[j]) == old.dep_types@[t].prop_class@[j],
            self.dep_types@[t].prop_class@[k].prop == old.dep_types@[t].prop_class@[k].prop,
            old.dep_types@[t].prop_class@[k].def_val is Some ==> self.dep_types@[t].prop_class@[k].def_val
                == old.dep_types@[t].prop_class@[k].def_val,
            self.dep_types@[t].prop_class@[k].set_lock matches Some(lock) ==> lock.serial()
                < self.issued,
            self.dep_types@[t].prop_class@[k].def_val matches Some(v) ==> old.has_type(v.type_of())
                && old.type_is(v.type_of(), old.prop_type(old.dep_types@[t].prop_class@[k].prop)),
        ensures
            self.wf(),
            self.same_but(old, t, Some(old.dep_types@[t].prop_class@[k].prop)),
            self.same_props(old),
            self.class_def(t, old.dep_types@[t].prop_class@[k].prop)
                == self.dep_types@[t].prop_class@[k].def_val,
            self.class_lock(t, old.dep_types@[t].prop_class@[k].prop)
                == self.dep_types@[t].prop_class@[k].set_lock,
            self.class_hooks(t, old.dep_types@[t].prop_class@[k].prop)
                == self.dep_types@[t].prop_class@[k].on_changed@,
    {
        let p = old.dep_types@[t].prop_class@[k].prop;
        let new_list = self.dep_types@[t].prop_class@;
        let old_list = old.dep_types@[t].prop_class@;
        assert(class_keys_unique(new_list)) by {
            assert forall|i: int, j: int|
                0 <= i < new_list.len() && 0 <= j < new_list.len() && i != j implies (
            #[trigger] new_list[i]).prop != (#[trigger] new_list[j]).prop by {
                assert(new_list[i].prop == old_list[i].prop);
                assert(new_list[j].prop == old_list[j].prop);
            }
        }
        assert forall|u: int| 0 <= u < old.dep_types@.len() implies {
            &&& (#[trigger] self.dep_types@[u]).base == old.dep_types@[u].base
            &&& self.dep_types@[u].props@.len() >= old.dep_types@[u].props@.len()
            &&& list_grown(self.dep_types@[u].prop_class@, old.dep_types@[u].prop_class@)
            &&& class_keys_unique(self.dep_types@[u].prop_class@)
        } by {
            if u == t {
                assert forall|j: int| 0 <= j < old_list.len() implies (#[trigger] new_list[j]).prop
                    == old_list[j].prop && (old_list[j].def_val is Some ==> new_list[j].def_val
                    == old_list[j].def_val) by {}
            }
        }
        assert(self.grown(old));
        assert(self.class_ok(t, k)) by {
            assert(old.class_ok(t, k));
            let o = p.owner as int;
            assert(self.dep_types@[o].props@[p.index as int] == old.dep_types@[o].props@[p.index as int]);
            if let Some(v) = new_list[k].def_val {
                self.lemma_grown_type(old, v.type_of(), old.prop_type(p));
            }
        }
        self.lemma_wf_grown(old, t, k);
        self.lemma_class_at(t, p, k);
        assert forall|u: int| 0 <= u < old.dep_count() implies #[trigger] self.same_type(old, u) by {}
        assert forall|u: int| 0 <= u < old.dep_count() && u != t implies #[trigger] self.same_class(
            old,
            u,
            None,
        ) by {}
        self.lemma_class_kept(old, t, k);
    }

    /// Locks the setter of the property for the class `target` and the
    /// classes that build on it, for which it must not be locked yet.
    /// Returns the token that allows to set the property all the same.
    pub fn lock_class_set(&mut self, target: DepType<I>, prop: DepProp<I>) -> (lock: ClassSetLock)
        requires
            old(self).wf(),
            old(self).has_dep(target),
            old(self).has_prop(prop),
            old(self).lock_of(target.index(), prop) is None,
            old(self).issued_count() < u64::MAX,
        ensures
            final(self).wf(),
            final(self).same_but(old(self), target.index(), Some(prop)),
            final(self).same_props(old(self)),
            final(self).issued_count() == old(self).issued_count() + 1,
            lock.serial() == old(self).issued_count(),
            final(self).class_lock(target.index(), prop) == Some(lock),
            final(self).class_def(target.index(), prop) == old(self).class_def(target.index(), prop),
            final(self).class_hooks(target.index(), prop) == old(self).class_hooks(
                target.index(),
                prop,
            ),
    {
        let k = self.dep_prop_class(target.0, prop);
        let ghost first = *self;
        let lock = ClassSetLock(self.issue());
        let ghost mid = *self;
        proof {
            mid.lemma_same_but_twice(&first, old(self), 0, None);
            assert(mid.class_ok(target.0 as int, k as int));
        }
        self.dep_types[target.0].prop_class[k].set_lock = Some(lock);
        proof {
            self.lemma_record_set(&mid, target.0 as int, k as int);
            self.lemma_same_but_twice(&mid, old(self), target.index(), Some(prop));
        }
        lock
    }

    /// What holds of a registry that holds what `mid` held, which held what
    /// `old` held.
    proof fn lemma_same_but_twice(&self, mid: &Fw<I>, old: &Fw<I>, at: int, but: Option<DepProp<I>>)
        requires
            self.same_but(mid, at, but),
            self.same_props(mid),
            mid.same_but(old, 0, None),
            mid.same_props(old),
        ensures
            self.same_but(old, at, but),
            self.same_props(old),
    {
        assert forall|i: int| 0 <= i < old.val_count() implies #[trigger] self.same_desc(old, i) by {
            assert(self.same_desc(mid, i));
            assert(mid.same_desc(old, i));
        }
        assert forall|t: int| 0 <= t < old.dep_count() implies #[trigger] self.same_type(old, t) by {
            assert(self.same_type(mid, t));
            assert(mid.same_type(old, t));
        }
        assert forall|t: int| 0 <= t < old.dep_count() && t != at implies #[trigger] self.same_class(
            old,
            t,
            None,
        ) by {
            assert(self.same_class(mid, t, None));
            assert(mid.same_class(old, t, None));
        }
        if 0 <= at < old.dep_count() {
            assert(self.same_class(mid, at, but));
            assert(mid.same_class(old, at, None));
        }
    }

    /// Gives the class `dep_type`, for which the property is, a default of
    /// its own for the property; it must not have one yet.
    pub fn override_def_val(&mut self, dep_type: DepType<I>, dep_prop: DepProp<I>, def_val: Obj<I>)
        requires
            old(self).wf(),
            old(self).has_dep(dep_type),
            old(self).has_prop(dep_prop),
            old(self).dep_is(dep_type.index(), old(self).target(dep_prop)),
            old(self).has_type(def_val.type_of()),
            old(self).type_is(def_val.type_of(), old(self).prop_type(dep_prop)),
            old(self).class_def(dep_type.index(), dep_prop) is None,
        ensures
            final(self).wf(),
            final(self).same_but(old(self), dep_type.index(), Some(dep_prop)),
            final(self).same_props(old(self)),
            final(self).issued_count() == old(self).issued_count(),
            final(self).class_def(dep_type.index(), dep_prop) == Some(def_val),
            final(self).class_lock(dep_type.index(), dep_prop) == old(self).class_lock(
                dep_type.index(),
                dep_prop,
            ),
            final(self).class_hooks(dep_type.index(), dep_prop) == old(self).class_hooks(
                dep_type.index(),
                dep_prop,
            ),
    {
        let k = self.dep_prop_class(dep_type.0, dep_prop);
        let ghost mid = *self;
        proof {
            mid.lemma_grown_type(old(self), def_val.type_of(), old(self).prop_type(dep_prop));
            mid.lemma_wf();
            old(self).lemma_wf();
        }
        self.dep_types[dep_type.0].prop_class[k].def_val = Some(def_val);
        proof {
            self.lemma_record_set(&mid, dep_type.0 as int, k as int);
            self.lemma_same_but_twice(&mid, old(self), dep_type.index(), Some(dep_prop));
        }
    }

    /// Subscribes to the changes of the property on the objects of the class
    /// `dep_type`, for which the property is, and of the classes that build
    /// on it.
    pub fn on_changed(&mut self, dep_type: DepType<I>, dep_prop: DepProp<I>, callback: Hook)
        requires
            old(self).wf(),
            old(self).has_dep(dep_type),
            old(self).has_prop(dep_prop),
            old(self).dep_is(dep_type.index(), old(self).target(dep_prop)),
        ensures
            final(self).wf(),
            final(self).same_but(old(self), dep_type.index(), Some(dep_prop)),
            final(self).same_props(old(self)),
            final(self).issued_count() == old(self).issued_count(),
            final(self).class_hooks(dep_type.index(), dep_prop) == old(self).class_hooks(
                dep_type.index(),
                dep_prop,
            ).push(callback),
            final(self).class_def(dep_type.index(), dep_prop) == old(self).class_def(
                dep_type.index(),
                dep_prop,
            ),
            final(self).class_lock(dep_type.index(), dep_prop) == old(self).class_lock(
                dep_type.index(),
                dep_prop,
            ),
    {
        let k = self.dep_prop_class(dep_type.0, dep_prop);
        let ghost mid = *self;
        proof {
            mid.lemma_wf();
            assert(mid.class_ok(dep_type.0 as int, k as int));
        }
        self.dep_types[dep_type.0].prop_class[k].on_changed.push(callback);
        proof {
            self.lemma_record_set(&mid, dep_type.0 as int, k as int);
            self.lemma_same_but_twice(&mid, old(self), dep_type.index(), Some(dep_prop));
        }
    }
}

impl<I> DepPropDesc<I> {
    fn new(name: String, val_type: Type<I>, attached: Option<DepType<I>>) -> (r: DepPropDesc<I>)
        ensures
            r.name == name,
            r.val_type == val_type,
            r.attached == attached,
    {
        DepPropDesc { name, val_type, attached }
    }
}

impl<I> DepPropClass<I> {
    fn with_def(prop: DepProp<I>, def_val: Obj<I>) -> (r: DepPropClass<I>)
        ensures
            r.prop == prop,
            r.def_val == Some(def_val),
            r.set_lock is None,
            r.on_changed@ == Seq::<Hook>::empty(),
    {
        DepPropClass { prop, def_val: Some(def_val), set_lock: None, on_changed: Vec::new() }
    }
}

impl<I> Fw<I> {
    /// The registry holds what `old` held and one more property, `p`, with
    /// its default for the class it is for.
    pub open spec fn with_prop(
        &self,
        old: &Fw<I>,
        p: DepProp<I>,
        name: Seq<char>,
        val_type: Type<I>,
        def_val: Obj<I>,
        attached: Option<DepType<I>>,
    ) -> bool {
        &&& self.same_but(old, self.target(p), Some(p))
        &&& self.issued_count() == old.issued_count()
        &&& p.number() == old.prop_count(p.owner_index())
        &&& self.prop_count(p.owner_index()) == old.prop_count(p.owner_index()) + 1
        &&& forall|t: int|
            0 <= t < old.dep_count() && t != p.owner_index() ==> self.prop_count(t) == old.prop_count(t)
        &&& self.prop_name(p) == name
        &&& self.prop_type(p) == val_type
        &&& self.prop_attached(p) == attached
        &&& self.class_def(self.target(p), p) == Some(def_val)
        &&& forall|t: int|
            0 <= t < old.dep_count() && t != self.target(p) ==> (#[trigger] self.class_def(t, p)) is None
        &&& forall|t: int| 0 <= t < old.dep_count() ==> (#[trigger] self.class_lock(t, p)) is None
        &&& forall|t: int|
            0 <= t < old.dep_count() ==> (#[trigger] self.class_hooks(t, p)) == Seq::<Hook>::empty()
        &&& forall|t: int| 0 <= t < old.dep_count() ==> (#[trigger] self.lock_of(t, p)) is None
        &&& forall|t: int|
            0 <= t < old.dep_count() ==> (#[trigger] self.hooks_of(t, p)) == Seq::<Hook>::empty()
    }

    /// Registers a property of the type `owner` with a name that no
    /// property of the type has yet, for values of the type `val_type`,
    /// with a default of that type. The property is for the objects of the
    /// type `attached`, or else for those of its owner. It is locked for no
    /// type and has no subscriber.
    pub fn reg_dep_prop(
        &mut self,
        owner: DepType<I>,
        name: String,
        val_type: Type<I>,
        def_val: Obj<I>,
        attached: Option<DepType<I>>,
    ) -> (r: DepProp<I>)
        requires
            old(self).wf(),
            old(self).has_dep(owner),
            attached matches Some(a) ==> old(self).has_dep(a),
            old(self).has_type(val_type),
            old(self).has_type(def_val.type_of()),
            old(self).type_is(def_val.type_of(), val_type),
            !old(self).prop_named(owner.index(), name@),
            old(self).prop_count(owner.index()) < usize::MAX,
        ensures
            final(self).wf(),
            r.owner_index() == owner.index(),
            final(self).has_prop(r),
            final(self).with_prop(old(self), r, name@, val_type, def_val, attached),
    {
        let index = self.dep_types[owner.0].props.len();
        let dep_prop = DepProp { owner: owner.0, index, instance: PhantomData };
        let desc = DepPropDesc::new(name, val_type, attached);
        self.dep_types[owner.0].props.push(desc);
        let target = match attached {
            Some(t) => t,
            None => owner,
        };
        let ghost mid = *self;
        let ghost k = mid.dep_types@[target.0 as int].prop_class@.len() as int;
        let record = DepPropClass::with_def(dep_prop, def_val);
        self.dep_types[target.0].prop_class.push(record);
        proof {
            let o = owner.0 as int;
            let g = target.0 as int;
            assert(self.names_of_vals() =~= old(self).names_of_vals());
            assert(self.names_of_deps() =~= old(self).names_of_deps());
            assert(self.dep_types@[g].prop_class@ == old(self).dep_types@[g].prop_class@.push(record));
            assert(self.dep_types@[o].props@ == old(self).dep_types@[o].props@.push(desc));
            assert forall|t: int| 0 <= t < self.dep_types@.len() implies {
                &&& (#[trigger] self.dep_types@[t]).base matches Some(b) ==> b.index() < t
                &&& self.dep_types@[t].props@.len() <= usize::MAX
                &&& self.names_of_props(t).no_duplicates()
                &&& class_keys_unique(self.dep_types@[t].prop_class@)
            } by {
                let before = old(self).names_of_props(t);
                let after = self.names_of_props(t);
                if t == o {
                    assert(after =~= before.push(name@));
                    assert forall|i: int, j: int|
                        0 <= i < after.len() && 0 <= j < after.len() && i != j implies after[i]
                        != after[j] by {
                        if i < before.len() && j < before.len() {
                            assert(before[i] != before[j]);
                        } else {
                            let m = if i < before.len() {
                                i
                            } else {
                                j
                            };
                            let q = DepProp::<I> {
                                owner: owner.0,
                                index: m as usize,
                                instance: PhantomData,
                            };
                            assert(old(self).prop_name(q) == before[m]);
                        }
                    }
                } else {
                    assert(after =~= before);
                }
                let olds = old(self).dep_types@[t].prop_class@;
                let news = self.dep_types@[t].prop_class@;
                if t == g {
                    assert forall|i: int, j: int|
                        0 <= i < news.len() && 0 <= j < news.len() && i != j implies (
                    #[trigger] news[i]).prop != (#[trigger] news[j]).prop by {
                        if i < olds.len() && j < olds.len() {
                            assert(olds[i].prop != olds[j].prop);
                        } else {
                            let m = if i < olds.len() {
                                i
                            } else {
                                j
                            };
                            assert(old(self).class_ok(t, m));
                        }
                    }
                } else {
                    assert(news == olds);
                }
            }
            assert(self.grown(old(self)));
            self.lemma_class_at(g, dep_prop, k);
            assert forall|t: int, j: int|
                0 <= t < self.dep_types@.len() && 0 <= j < self.dep_types@[t].props@.len()
                    implies #[trigger] self.prop_ok(t, j) by {
                if t == o && j == index {
                    self.lemma_grown_type(old(self), val_type, val_type);
                    assert(dep_prop == DepProp::<I> {
                        owner: t as usize,
                        index: j as usize,
                        instance: PhantomData,
                    });
                } else {
                    self.lemma_grown_prop_ok(old(self), t, j);
                }
            }
            assert forall|t: int, j: int|
                0 <= t < self.dep_types@.len() && 0 <= j < self.dep_types@[t].prop_class@.len()
                    implies #[trigger] self.class_ok(t, j) by {
                if t == g && j == k {
                    self.lemma_grown_type(old(self), def_val.type_of(), val_type);
                } else {
                    self.lemma_grown_class_ok(old(self), t, j);
                }
            }
            assert forall|t: int| 0 <= t < old(self).dep_count() implies #[trigger] self.same_type(
                old(self),
                t,
            ) by {}
            assert forall|t: int|
                0 <= t < old(self).dep_count() && t != g implies #[trigger] self.same_class(
                old(self),
                t,
                None,
            ) by {
                self.lemma_class_kept(old(self), t, -1);
            }
            self.lemma_class_kept(old(self), g, k);
            old(self).lemma_wf();
            assert forall|t: int| 0 <= t < old(self).dep_count() implies (#[trigger] self.class_lock(
                t,
                dep_prop,
            )) is None by {
                if t != g {
                    assert(self.same_class(old(self), t, None));
                    assert(old(self).class_lock(t, dep_prop) is None);
                }
            }
            assert forall|t: int| 0 <= t < old(self).dep_count() implies (#[trigger] self.class_hooks(
                t,
                dep_prop,
            )) == Seq::<Hook>::empty() by {
                if t != g {
                    assert(self.same_class(old(self), t, None));
                    assert(old(self).class_hooks(t, dep_prop).len() == 0);
                    assert(old(self).class_hooks(t, dep_prop) =~= Seq::<Hook>::empty());
                }
            }
            assert forall|t: int| 0 <= t < old(self).dep_count() && t != g implies (
            #[trigger] self.class_def(t, dep_prop)) is None by {
                assert(self.same_class(old(self), t, None));
            }
            assert forall|t: int| 0 <= t < old(self).dep_count() implies (#[trigger] self.lock_of(
                t,
                dep_prop,
            )) is None by {
                law_no_lock(self, dep_prop, t);
            }
            assert forall|t: int| 0 <= t < old(self).dep_count() implies (#[trigger] self.hooks_of(
                t,
                dep_prop,
            )) == Seq::<Hook>::empty() by {
                law_no_hooks(self, dep_prop, t);
            }
        }
        dep_prop
    }

    /// A property has a default for every class that it is for.
    pub proof fn lemma_def_val_exists(&self, t: int, p: DepProp<I>)
        requires
            self.wf(),
            self.has_prop(p),
            0 <= t < self.dep_count(),
            self.dep_is(t, self.target(p)),
        ensures
            self.def_val_of(t, p) is Some,
        decreases t,
    {
        self.lemma_wf();
        if self.class_def(t, p) is None {
            assert(t != self.target(p));
            self.lemma_def_val_exists(self.base_of(t)->0.index(), p);
        }
    }
}

impl<I> DepType<I> {
    /// The default of the property for objects of this type, for which the
    /// property is.
    pub fn def_val(self, dep_prop: DepProp<I>, fw: &Fw<I>) -> (r: &Obj<I>)
        requires
            fw.wf(),
            fw.has_dep(self),
            fw.has_prop(dep_prop),
            fw.dep_is(self.index(), fw.target(dep_prop)),
        ensures
            fw.def_val_of(self.index(), dep_prop) == Some(*r),
    {
        let mut base = self;
        loop
            invariant
                fw.wf(),
                fw.has_dep(base),
                fw.has_prop(dep_prop),
                fw.dep_is(base.index(), fw.target(dep_prop)),
                fw.def_val_of(self.index(), dep_prop) == fw.def_val_of(base.index(), dep_prop),
            decreases base.index(),
        {
            proof {
                fw.lemma_def_val_exists(base.index(), dep_prop);
                fw.lemma_wf();
            }
            if let Some(k) = find_class(&fw.dep_types[base.0].prop_class, dep_prop) {
                proof {
                    fw.lemma_class_at(base.0 as int, dep_prop, k as int);
                }
                if let Some(val) = &fw.dep_types[base.0].prop_class[k].def_val {
                    return val;
                }
            }
            match fw.dep_types[base.0].base {
                Some(t) => {
                    base = t;
                },
                None => {
                    return vstd::pervasive::unreached();
                },
            }
        }
    }

    /// The lock on the setter of the property for objects of this type.
    pub fn set_lock(self, dep_prop: DepProp<I>, fw: &Fw<I>) -> (r: Option<ClassSetLock>)
        requires
            fw.wf(),
            fw.has_dep(self),
        ensures
            r == fw.lock_of(self.index(), dep_prop),
    {
        let mut base = self;
        loop
            invariant
                fw.wf(),
                fw.has_dep(base),
                fw.lock_of(self.index(), dep_prop) == fw.lock_of(base.index(), dep_prop),
            decreases base.index(),
        {
            proof {
                fw.lemma_wf();
            }
            if let Some(k) = find_class(&fw.dep_types[base.0].prop_class, dep_prop) {
                proof {
                    fw.lemma_class_at(base.0 as int, dep_prop, k as int);
                }
                if let Some(lock) = fw.dep_types[base.0].prop_class[k].set_lock {
                    return Some(lock);
                }
            }
            match fw.dep_types[base.0].base {
                Some(t) => {
                    base = t;
                },
                None => {
                    return None;
                },
            }
        }
    }

    /// Whether the setter of the property is locked for objects of this
    /// type.
    pub fn is_locked(self, dep_prop: DepProp<I>, fw: &Fw<I>) -> (r: bool)
        requires
            fw.wf(),
            fw.has_dep(self),
        ensures
            r == fw.lock_of(self.index(), dep_prop) is Some,
    {
        self.set_lock(dep_prop, fw).is_some()
    }

    /// The constructors to run on a new object of this type: those of the
    /// types in its base chain, the root's first.
    pub fn init(self, fw: &Fw<I>) -> (r: Vec<Hook>)
        requires
            fw.wf(),
            fw.has_dep(self),
        ensures
            r@ == fw.ctors_of(self.index()),
        decreases self.index(),
    {
        proof {
            fw.lemma_wf();
        }
        let mut hooks = match fw.dep_types[self.0].base {
            Some(base) => base.init(fw),
            None => Vec::new(),
        };
        if let Some(hook) = fw.dep_types[self.0].ctor {
            hooks.push(hook);
        }
        hooks
    }

    /// The subscribers to the changes of the property on objects of this
    /// type: those of the classes in its base chain, the root's first, and
    /// those of one class in the order in which they were registered.
    pub fn subscribers(self, dep_prop: DepProp<I>, fw: &Fw<I>) -> (r: Vec<Hook>)
        requires
            fw.wf(),
            fw.has_dep(self),
        ensures
            r@ == fw.hooks_of(self.index(), dep_prop),
        decreases self.index(),
    {
        proof {
            fw.lemma_wf();
        }
        let mut hooks = match fw.dep_types[self.0].base {
            Some(base) => base.subscribers(dep_prop, fw),
            None => Vec::new(),
        };
        if let Some(k) = find_class(&fw.dep_types[self.0].prop_class, dep_prop) {
            proof {
                fw.lemma_class_at(self.0 as int, dep_prop, k as int);
            }
            let list = &fw.dep_types[self.0].prop_class[k].on_changed;
            let ghost above = hooks@;
            let mut i: usize = 0;
            while i < list.len()
                invariant
                    i <= list.len(),
                    hooks@ == above + list@.subrange(0, i as int),
                decreases list.len() - i,
            {
                hooks.push(list[i]);
                assert(hooks@ =~= above + list@.subrange(0, i + 1));
                i = i + 1;
            }
            assert(list@.subrange(0, i as int) =~= list@);
        } else {
            assert(hooks@ + Seq::<Hook>::empty() =~= hooks@);
        }
        hooks
    }
}

impl<I> ValType<I> {
    /// Name of the type.
    pub fn name(self, fw: &Fw<I>) -> (r: &str)
        requires
            fw.has_val(self),
        ensures
            r@ == fw.val_name(self.index()),
    {
        fw.val_types[self.0].name.as_str()
    }

    /// The value of this type that `s` stands for: what the description
    /// of the type reads from it, as a value of this type; `None` where
    /// the description does not accept the text.
    pub fn parse(self, s: &str, fw: &Fw<I>) -> (r: Option<Val<I>>)
        requires
            fw.has_val(self),
        ensures
            r is Some <==> fw.val_accepts(self.index(), s),
            r matches Some(v) ==> v.type_model() == self && fw.val_reads(
                self.index(),
                s,
                &v.payload(),
            ),
    {
        match fw.val_types[self.0].desc.it.parse(self, s) {
            Some(v) => Some(Val { type_: self, unbox: v.unbox }),
            None => None,
        }
    }
}

impl<I> Val<I> {
    /// The text that stands for the value, as the description of its type
    /// writes it.
    pub fn to_string(&self, fw: &Fw<I>) -> (r: String)
        requires
            fw.has_val(self.type_model()),
        ensures
            fw.val_writes(self.type_model().index(), &self.payload(), &r),
    {
        fw.val_types[self.type_.0].desc.it.to_string(self)
    }
}

/// The code of the constructors and change subscribers that a registry
/// names by their hooks.
pub trait Hooks<I> {
    /// What the hooks rely on between two calls, and keep. Hooks that rely
    /// on nothing say `true`.
    spec fn inv(&self) -> bool;

    /// Whether `after` and `built` are what these hooks and the new object
    /// `obj` can be after the constructor `hook` ran on the object. Hooks
    /// say here what `construct` does.
    spec fn builds(&self, after: &Self, hook: Hook, obj: &DepObj<I>, built: &DepObj<I>, fw: &Fw<I>) -> bool;

    /// Runs the constructor `hook` on a new object.
    fn construct(&mut self, hook: Hook, obj: &mut DepObj<I>, fw: &Fw<I>)
        requires
            old(self).inv(),
            fw.wf(),
            fw.has_dep(old(obj).type_model()),
        ensures
            final(self).inv(),
            old(self).builds(final(self), hook, old(obj), final(obj), fw),
    ;

    /// Whether `after` is what these hooks can be after the subscriber
    /// `hook` heard that a property of the object changed from `former` to
    /// `new`. Hooks say here what `changed` does.
    spec fn hears(
        &self,
        after: &Self,
        hook: Hook,
        obj: &DepObj<I>,
        former: &Obj<I>,
        new: &Obj<I>,
        fw: &Fw<I>,
    ) -> bool;

    /// Tells the subscriber `hook` that a property of the object changed
    /// from `former` to `new`; the object holds the new value already.
    fn changed(&mut self, hook: Hook, obj: &DepObj<I>, former: &Obj<I>, new: &Obj<I>, fw: &Fw<I>)
        requires
            old(self).inv(),
            fw.wf(),
            fw.has_dep(obj.type_model()),
        ensures
            final(self).inv(),
            old(self).hears(final(self), hook, obj, former, new, fw),
    ;
}

/// Whether `after` and `built` are what the hooks `before` and a new object
/// of the type `t` can be after the constructors of `list` ran on the
/// object, one after the other. The object keeps the type `t`, whatever a
/// constructor gave it.
pub open spec fn constructed<I, H: Hooks<I>>(
    before: &H,
    after: &H,
    list: Seq<Hook>,
    t: DepType<I>,
    built: &DepObj<I>,
    fw: &Fw<I>,
) -> bool
    decreases list.len(),
{
    if list.len() == 0 {
        *after == *before && built.is_blank(t)
    } else {
        exists|mid: H, part: DepObj<I>, raw: DepObj<I>|
            constructed(before, &mid, list.drop_last(), t, &part, fw) && #[trigger] mid.builds(
                after,
                list.last(),
                &part,
                &raw,
                fw,
            ) && built.holds_as(&raw, t)
    }
}

/// Whether `after` is what the hooks `before` can be after the subscribers
/// of `list` heard, one after the other, that a property of the object
/// changed from `former` to `new`.
pub open spec fn heard<I, H: Hooks<I>>(
    before: &H,
    after: &H,
    list: Seq<Hook>,
    obj: &DepObj<I>,
    former: &Obj<I>,
    new: &Obj<I>,
    fw: &Fw<I>,
) -> bool
    decreases list.len(),
{
    if list.len() == 0 {
        *after == *before
    } else {
        exists|mid: H|
            heard(before, &mid, list.drop_last(), obj, former, new, fw) && #[trigger] mid.hears(
                after,
                list.last(),
                obj,
                former,
                new,
                fw,
            )
    }
}

/// Where one subscriber hears of a change, the hooks are afterwards what
/// that subscriber makes of them.
pub proof fn law_heard_one<I, H: Hooks<I>>(
    before: &H,
    after: &H,
    hook: Hook,
    obj: &DepObj<I>,
    former: &Obj<I>,
    new: &Obj<I>,
    fw: &Fw<I>,
)
    requires
        heard(before, after, seq![hook], obj, former, new, fw),
    ensures
        before.hears(after, hook, obj, former, new, fw),
{
    let list = seq![hook];
    assert(list.last() == hook);
    assert(list.drop_last() =~= Seq::<Hook>::empty());
    let mid = choose|mid: H|
        heard(before, &mid, list.drop_last(), obj, former, new, fw) && #[trigger] mid.hears(
            after,
            list.last(),
            obj,
            former,
            new,
            fw,
        );
    assert(mid == *before);
}

/// Where one constructor runs on a new object of the type `t`, the hooks
/// and the object are afterwards what that constructor makes of them and
/// of an object of the type `t` without values and data, with the type `t`
/// again.
pub proof fn law_constructed_one<I, H: Hooks<I>>(
    before: &H,
    after: &H,
    hook: Hook,
    t: DepType<I>,
    built: &DepObj<I>,
    fw: &Fw<I>,
)
    requires
        constructed(before, after, seq![hook], t, built, fw),
    ensures
        exists|part: DepObj<I>, raw: DepObj<I>|
            part.is_blank(t) && #[trigger] before.builds(after, hook, &part, &raw, fw)
                && built.holds_as(&raw, t),
{
    let list = seq![hook];
    assert(list.last() == hook);
    assert(list.drop_last() =~= Seq::<Hook>::empty());
    let (mid, part, raw) = choose|mid: H, part: DepObj<I>, raw: DepObj<I>|
        constructed(before, &mid, list.drop_last(), t, &part, fw) && #[trigger] mid.builds(
            after,
            list.last(),
            &part,
            &raw,
            fw,
        ) && built.holds_as(&raw, t);
    assert(mid == *before);
    assert(before.builds(after, hook, &part, &raw, fw));
}

/// Hooks that do nothing.
pub struct NoHooks;

impl<I> Hooks<I> for NoHooks {
    open spec fn inv(&self) -> bool {
        true
    }

    open spec fn builds(&self, after: &Self, hook: Hook, obj: &DepObj<I>, built: &DepObj<I>, fw: &Fw<I>) -> bool {
        *after == *self && *built == *obj
    }

    fn construct(&mut self, hook: Hook, obj: &mut DepObj<I>, fw: &Fw<I>) {
    }

    open spec fn hears(
        &self,
        after: &Self,
        hook: Hook,
        obj: &DepObj<I>,
        former: &Obj<I>,
        new: &Obj<I>,
        fw: &Fw<I>,
    ) -> bool {
        *after == *self
    }

    fn changed(&mut self, hook: Hook, obj: &DepObj<I>, former: &Obj<I>, new: &Obj<I>, fw: &Fw<I>) {
    }
}

struct LocalProp<I> {
    prop: DepProp<I>,
    val: Obj<I>,
}

struct DataSlot {
    key: DepObjDataKey,
    value: Payload,
}

/// An object of a dependency type: the values that its properties have of
/// their own, and its data slots.
pub struct DepObj<I> {
    type_: DepType<I>,
    props: Vec<LocalProp<I>>,
    data: Vec<DataSlot>,
}

spec fn local_index<I>(props: Seq<LocalProp<I>>, p: DepProp<I>) -> Option<int> {
    if exists|k: int| 0 <= k < props.len() && (#[trigger] props[k]).prop == p {
        Some(choose|k: int| 0 <= k < props.len() && (#[trigger] props[k]).prop == p)
    } else {
        None
    }
}

spec fn local_keys_unique<I>(props: Seq<LocalProp<I>>) -> bool {
    forall|j: int, k: int|
        0 <= j < props.len() && 0 <= k < props.len() && j != k ==> (#[trigger] props[j]).prop != (
        #[trigger] props[k]).prop
}

spec fn slot_index(data: Seq<DataSlot>, key: DepObjDataKey) -> Option<int> {
    if exists|k: int| 0 <= k < data.len() && (#[trigger] data[k]).key == key {
        Some(choose|k: int| 0 <= k < data.len() && (#[trigger] data[k]).key == key)
    } else {
        None
    }
}

spec fn slot_keys_unique(data: Seq<DataSlot>) -> bool {
    forall|j: int, k: int|
        0 <= j < data.len() && 0 <= k < data.len() && j != k ==> (#[trigger] data[j]).key != (
        #[trigger] data[k]).key
}

fn find_local<I>(props: &Vec<LocalProp<I>>, p: DepProp<I>) -> (r: Option<usize>)
    requires
        local_keys_unique(props@),
    ensures
        r matches Some(k) ==> k < props@.len() && props@[k as int].prop == p,
        match r {
            Some(k) => local_index(props@, p) == Some(k as int),
            None => local_index(props@, p) is None,
        },
{
    let mut k: usize = 0;
    while k < props.len()
        invariant
            k <= props.len(),
            local_keys_unique(props@),
            forall|j: int| 0 <= j < k ==> (#[trigger] props@[j]).prop != p,
        decreases props.len() - k,
    {
        if props[k].prop.owner == p.owner && props[k].prop.index == p.index {
            return Some(k);
        }
        k = k + 1;
    }
    None
}

fn find_slot(data: &Vec<DataSlot>, key: &DepObjDataKey) -> (r: Option<usize>)
    requires
        slot_keys_unique(data@),
    ensures
        r matches Some(k) ==> k < data@.len() && data@[k as int].key == *key,
        match r {
            Some(k) => slot_index(data@, *key) == Some(k as int),
            None => slot_index(data@, *key) is None,
        },
{
    let mut k: usize = 0;
    while k < data.len()
        invariant
            k <= data.len(),
            slot_keys_unique(data@),
            forall|j: int| 0 <= j < k ==> (#[trigger] data@[j]).key != *key,
        decreases data.len() - k,
    {
        if data[k].key.0.id == key.0.id {
            return Some(k);
        }
        k = k + 1;
    }
    None
}

impl<I> LocalProp<I> {
    fn new(prop: DepProp<I>, val: Obj<I>) -> (r: LocalProp<I>)
        ensures
            r.prop == prop,
            r.val == val,
    {
        LocalProp { prop, val }
    }
}

impl<I> Fw<I> {
    /// Whether a caller that presents the token `lock`, or none, may set
    /// the property on an object of the type `t`: where the setter is
    /// locked, the token must be the lock.
    pub open spec fn may_set(&self, t: int, p: DepProp<I>, lock: Option<ClassSetLock>) -> bool {
        match self.lock_of(t, p) {
            None => true,
            Some(l) => lock == Some(l),
        }
    }
}

impl<I> DepObj<I> {
    #[verifier::type_invariant]
    spec fn inv(self) -> bool {
        local_keys_unique(self.props@) && slot_keys_unique(self.data@)
    }

    /// The type of the object.
    pub closed spec fn type_model(&self) -> DepType<I> {
        self.type_
    }

    /// The value that the property has of the object's own, if any.
    pub closed spec fn local(&self, p: DepProp<I>) -> Option<Obj<I>> {
        match local_index(self.props@, p) {
            Some(k) => Some(self.props@[k].val),
            None => None,
        }
    }

    /// What the data slot with the key holds, if anything.
    pub closed spec fn slot(&self, key: DepObjDataKey) -> Option<Payload> {
        match slot_index(self.data@, key) {
            Some(k) => Some(self.data@[k].value),
            None => None,
        }
    }

    /// The value of the property: the object's own, or else the default
    /// for the object's type.
    pub open spec fn value_of(&self, p: DepProp<I>, fw: &Fw<I>) -> Option<Obj<I>> {
        match self.local(p) {
            Some(v) => Some(v),
            None => fw.def_val_of(self.type_model().index(), p),
        }
    }

    /// Every property but `but` has the value of its own that it had in
    /// `old`, if any; the type and the data slots are those of `old`.
    pub open spec fn same_but(&self, old: &DepObj<I>, but: DepProp<I>) -> bool {
        &&& self.type_model() == old.type_model()
        &&& forall|q: DepProp<I>| q != but ==> #[trigger] self.local(q) == old.local(q)
        &&& forall|key: DepObjDataKey| #[trigger] self.slot(key) == old.slot(key)
    }

    /// Every data slot but that with the key `but` holds what it held in
    /// `old`; the type and the property values are those of `old`.
    pub open spec fn same_data_but(&self, old: &DepObj<I>, but: DepObjDataKey) -> bool {
        &&& self.type_model() == old.type_model()
        &&& forall|q: DepProp<I>| #[trigger] self.local(q) == old.local(q)
        &&& forall|key: DepObjDataKey| key != but ==> #[trigger] self.slot(key) == old.slot(key)
    }

    /// Whether the object has the type `t`, no value of its own and no
    /// data.
    pub open spec fn is_blank(&self, t: DepType<I>) -> bool {
        &&& self.type_model() == t
        &&& forall|q: DepProp<I>| #[trigger] self.local(q) is None
        &&& forall|key: DepObjDataKey| #[trigger] self.slot(key) is None
    }

    /// Whether the object has the type `t`, and the values of its own and
    /// the data of `other`.
    pub open spec fn holds_as(&self, other: &DepObj<I>, t: DepType<I>) -> bool {
        &&& self.type_model() == t
        &&& forall|q: DepProp<I>| #[trigger] self.local(q) == other.local(q)
        &&& forall|key: DepObjDataKey| #[trigger] self.slot(key) == other.slot(key)
    }

    /// An object of the given type without values of its own and without
    /// data.
    pub fn new(type_: DepType<I>) -> (obj: DepObj<I>)
        ensures
            obj.is_blank(type_),
    {
        DepObj { type_, props: Vec::new(), data: Vec::new() }
    }

    /// The type of the object.
    pub fn type_(&self) -> (t: DepType<I>)
        ensures
            t == self.type_model(),
    {
        self.type_
    }

    /// Whether the object is one of the type `dep_type`.
    pub fn is(&self, dep_type: DepType<I>, fw: &Fw<I>) -> (r: bool)
        requires
            fw.wf(),
            fw.has_dep(self.type_model()),
        ensures
            r == fw.dep_is(self.type_model().index(), dep_type.index()),
    {
        self.type_.is(dep_type, fw)
    }

    /// The value that the property, which is for the object, has of the
    /// object's own, if any.
    pub fn get_non_def(&self, dep_prop: DepProp<I>, fw: &Fw<I>) -> (r: Option<&Obj<I>>)
        requires
            fw.wf(),
            fw.has_dep(self.type_model()),
            fw.has_prop(dep_prop),
            fw.dep_is(self.type_model().index(), fw.target(dep_prop)),
        ensures
            match r {
                Some(v) => self.local(dep_prop) == Some(*v),
                None => self.local(dep_prop) is None,
            },
    {
        proof {
            use_type_invariant(self);
        }
        match find_local(&self.props, dep_prop) {
            Some(k) => Some(&self.props[k].val),
            None => None,
        }
    }

    /// The value of the property, which is for the object: the object's
    /// own, or else the default for the object's type.
    pub fn get<'a>(&'a self, dep_prop: DepProp<I>, fw: &'a Fw<I>) -> (r: &'a Obj<I>)
        requires
            fw.wf(),
            fw.has_dep(self.type_model()),
            fw.has_prop(dep_prop),
            fw.dep_is(self.type_model().index(), fw.target(dep_prop)),
        ensures
            self.value_of(dep_prop, fw) == Some(*r),
    {
        proof {
            use_type_invariant(self);
        }
        match find_local(&self.props, dep_prop) {
            Some(k) => &self.props[k].val,
            None => self.type_.def_val(dep_prop, fw),
        }
    }

    /// What the data slot with the key holds, if anything.
    pub fn get_data(&self, key: &DepObjDataKey) -> (r: Option<&Payload>)
        ensures
            match r {
                Some(v) => self.slot(*key) == Some(*v),
                None => self.slot(*key) is None,
            },
    {
        proof {
            use_type_invariant(self);
        }
        match find_slot(&self.data, key) {
            Some(k) => Some(&self.data[k].value),
            None => None,
        }
    }

    /// Puts `value` into the data slot with the key.
    pub fn set_data<T: Boxed>(&mut self, key: DepObjDataKey, value: T)
        ensures
            final(self).slot(key) matches Some(p) && T::held(p) == Some(value),
            final(self).same_data_but(old(self), key),
    {
        proof {
            use_type_invariant(&*self);
        }
        let value = value.into_payload();
        let ghost before = self.data@;
        match find_slot(&self.data, &key) {
            Some(k) => {
                let mut data: Vec<DataSlot> = Vec::new();
                std::mem::swap(&mut data, &mut self.data);
                data[k].value = value;
                proof {
                    lemma_slot_keys_kept(before, data@);
                }
                std::mem::swap(&mut data, &mut self.data);
                proof {
                    let after = self.data@;
                    assert forall|other: DepObjDataKey|
                        other != key implies #[trigger] slot_index(after, other) == slot_index(
                        before,
                        other,
                    ) by {
                        lemma_slot_index_kept(before, after, other);
                    }
                    lemma_slot_index(after, key, k as int);
                }
            },
            None => {
                let mut data: Vec<DataSlot> = Vec::new();
                std::mem::swap(&mut data, &mut self.data);
                data.push(DataSlot { key, value });
                proof {
                    lemma_slot_keys_kept(before, data@);
                }
                std::mem::swap(&mut data, &mut self.data);
                proof {
                    let after = self.data@;
                    assert forall|other: DepObjDataKey|
                        other != key implies #[trigger] slot_index(after, other) == slot_index(
                        before,
                        other,
                    ) by {
                        lemma_slot_index_kept(before, after, other);
                    }
                    lemma_slot_index(after, key, before.len() as int);
                }
            },
        }
    }

    /// Empties the data slot with the key.
    pub fn reset_data(&mut self, key: &DepObjDataKey)
        ensures
            final(self).slot(*key) is None,
            final(self).same_data_but(old(self), *key),
    {
        proof {
            use_type_invariant(&*self);
        }
        let ghost before = self.data@;
        let ghost mut place: int = -1;
        if let Some(k) = find_slot(&self.data, key) {
            let mut data: Vec<DataSlot> = Vec::new();
            std::mem::swap(&mut data, &mut self.data);
            data.remove(k);
            proof {
                place = k as int;
                lemma_slot_removed(before, place, *key);
            }
            std::mem::swap(&mut data, &mut self.data);
        }
        proof {
            let after = self.data@;
            assert forall|other: DepObjDataKey| other != *key implies #[trigger] self.slot(other)
                == old(self).slot(other) by {
                lemma_slot_removed(before, place, other);
            }
            if place >= 0 {
                lemma_slot_removed(before, place, *key);
            }
        }
    }
}

proof fn lemma_slot_index(data: Seq<DataSlot>, key: DepObjDataKey, k: int)
    requires
        slot_keys_unique(data),
        0 <= k < data.len(),
        data[k].key == key,
    ensures
        slot_index(data, key) == Some(k),
{
}

/// A list whose slots have the keys that those of `before` have, in their
/// places, and maybe one more slot with a new key, has no key twice.
proof fn lemma_slot_keys_kept(before: Seq<DataSlot>, after: Seq<DataSlot>)
    requires
        slot_keys_unique(before),
        before.len() <= after.len() <= before.len() + 1,
        forall|j: int| 0 <= j < before.len() ==> (#[trigger] after[j]).key == before[j].key,
        after.len() > before.len() ==> forall|j: int|
            0 <= j < before.len() ==> (#[trigger] before[j]).key != after[before.len() as int].key,
    ensures
        slot_keys_unique(after),
{
    assert(slot_keys_unique(after)) by {
        assert forall|i: int, j: int|
            0 <= i < after.len() && 0 <= j < after.len() && i != j implies (#[trigger] after[i]).key != (
        #[trigger] after[j]).key by {
            if i < before.len() && j < before.len() {
                assert(before[i].key != before[j].key);
            } else if i < before.len() {
                assert(before[i].key != after[before.len() as int].key);
            } else {
                assert(before[j].key != after[before.len() as int].key);
            }
        }
    }
}

/// Such a list has a slot for a key where `before` has one, if it is not
/// the key of the new slot.
proof fn lemma_slot_index_kept(before: Seq<DataSlot>, after: Seq<DataSlot>, key: DepObjDataKey)
    requires
        slot_keys_unique(before),
        before.len() <= after.len() <= before.len() + 1,
        forall|j: int| 0 <= j < before.len() ==> (#[trigger] after[j]).key == before[j].key,
        after.len() > before.len() ==> after[before.len() as int].key != key && forall|j: int|
            0 <= j < before.len() ==> (#[trigger] before[j]).key != after[before.len() as int].key,
    ensures
        slot_index(after, key) == slot_index(before, key),
{
    lemma_slot_keys_kept(before, after);
    match slot_index(before, key) {
        Some(k) => {
            assert(after[k].key == key);
            lemma_slot_index(after, key, k);
        },
        None => {
            if let Some(k) = slot_index(after, key) {
                assert(before[k].key == key);
            }
        },
    }
}

/// What a list of slots holds after the slot at `place` was removed.
proof fn lemma_slot_removed(before: Seq<DataSlot>, place: int, key: DepObjDataKey)
    requires
        slot_keys_unique(before),
        place < before.len(),
    ensures
        ({
            let after = if place >= 0 {
                before.remove(place)
            } else {
                before
            };
            &&& slot_keys_unique(after)
            &&& if place >= 0 && before[place].key == key {
                slot_index(after, key) is None
            } else {
                match slot_index(before, key) {
                    Some(k) => {
                        let j = if place >= 0 && k > place {
                            k - 1
                        } else {
                            k
                        };
                        slot_index(after, key) == Some(j) && after[j] == before[k]
                    },
                    None => slot_index(after, key) is None,
                }
            }
        }),
{
    if place >= 0 {
        let after = before.remove(place);
        assert forall|i: int, j: int|
            0 <= i < after.len() && 0 <= j < after.len() && i != j implies (#[trigger] after[i]).key != (
        #[trigger] after[j]).key by {
            let a = if i < place { i } else { i + 1 };
            let b = if j < place { j } else { j + 1 };
            assert(after[i] == before[a] && after[j] == before[b]);
        }
        if let Some(j) = slot_index(after, key) {
            let a = if j < place { j } else { j + 1 };
            assert(after[j] == before[a]);
            assert(before[a].key == key);
        }
        if let Some(k) = slot_index(before, key) {
            if k != place {
                let j = if k > place { k - 1 } else { k };
                assert(after[j] == before[k]);
                lemma_slot_index(after, key, j);
            }
        }
    }
}

/// The token that a caller presents, if any.
pub open spec fn presented(lock: Option<&ClassSetLock>) -> Option<ClassSetLock> {
    match lock {
        Some(l) => Some(*l),
        None => None,
    }
}

proof fn lemma_local_index<I>(props: Seq<LocalProp<I>>, p: DepProp<I>, k: int)
    requires
        local_keys_unique(props),
        0 <= k < props.len(),
        props[k].prop == p,
    ensures
        local_index(props, p) == Some(k),
{
}

/// A list whose records are for the properties that those of `before` are
/// for, in their places, and maybe one more record for a new property, has
/// no two records for one property.
proof fn lemma_local_keys_kept<I>(before: Seq<LocalProp<I>>, after: Seq<LocalProp<I>>)
    requires
        local_keys_unique(before),
        before.len() <= after.len() <= before.len() + 1,
        forall|j: int| 0 <= j < before.len() ==> (#[trigger] after[j]).prop == before[j].prop,
        after.len() > before.len() ==> forall|j: int|
            0 <= j < before.len() ==> (#[trigger] before[j]).prop != after[before.len() as int].prop,
    ensures
        local_keys_unique(after),
{
    assert(local_keys_unique(after)) by {
        assert forall|i: int, j: int|
            0 <= i < after.len() && 0 <= j < after.len() && i != j implies (#[trigger] after[i]).prop != (
        #[trigger] after[j]).prop by {
            if i < before.len() && j < before.len() {
                assert(before[i].prop != before[j].prop);
            } else if i < before.len() {
                assert(before[i].prop != after[before.len() as int].prop);
            } else {
                assert(before[j].prop != after[before.len() as int].prop);
            }
        }
    }
}

/// Such a list has a record for a property where `before` has one, if it
/// is not the property of the new record.
proof fn lemma_local_index_kept<I>(before: Seq<LocalProp<I>>, after: Seq<LocalProp<I>>, p: DepProp<I>)
    requires
        local_keys_unique(before),
        before.len() <= after.len() <= before.len() + 1,
        forall|j: int| 0 <= j < before.len() ==> (#[trigger] after[j]).prop == before[j].prop,
        after.len() > before.len() ==> after[before.len() as int].prop != p && forall|j: int|
            0 <= j < before.len() ==> (#[trigger] before[j]).prop != after[before.len() as int].prop,
    ensures
        local_index(after, p) == local_index(before, p),
{
    lemma_local_keys_kept(before, after);
    match local_index(before, p) {
        Some(k) => {
            assert(after[k].prop == p);
            lemma_local_index(after, p, k);
        },
        None => {
            if let Some(k) = local_index(after, p) {
                assert(before[k].prop == p);
            }
        },
    }
}

/// What a list of records holds after the record at `place` was removed.
proof fn lemma_local_removed<I>(before: Seq<LocalProp<I>>, place: int, p: DepProp<I>)
    requires
        local_keys_unique(before),
        place < before.len(),
    ensures
        ({
            let after = if place >= 0 {
                before.remove(place)
            } else {
                before
            };
            &&& local_keys_unique(after)
            &&& if place >= 0 && before[place].prop == p {
                local_index(after, p) is None
            } else {
                match local_index(before, p) {
                    Some(k) => {
                        let j = if place >= 0 && k > place {
                            k - 1
                        } else {
                            k
                        };
                        local_index(after, p) == Some(j) && after[j] == before[k]
                    },
                    None => local_index(after, p) is None,
                }
            }
        }),
{
    if place >= 0 {
        let after = before.remove(place);
        assert forall|i: int, j: int|
            0 <= i < after.len() && 0 <= j < after.len() && i != j implies (#[trigger] after[i]).prop != (
        #[trigger] after[j]).prop by {
            let a = if i < place { i } else { i + 1 };
            let b = if j < place { j } else { j + 1 };
            assert(after[i] == before[a] && after[j] == before[b]);
        }
        if let Some(j) = local_index(after, p) {
            let a = if j < place { j } else { j + 1 };
            assert(after[j] == before[a]);
            assert(before[a].prop == p);
        }
        if let Some(k) = local_index(before, p) {
            if k != place {
                let j = if k > place { k - 1 } else { k };
                assert(after[j] == before[k]);
                lemma_local_index(after, p, j);
            }
        }
    }
}

impl<I> DepObj<I> {
    /// Whether a caller that presents the token `lock`, or none, may set
    /// the property, which is for the object. A caller presents a token
    /// only for a property whose setter is locked.
    pub fn check_set(&self, dep_prop: DepProp<I>, lock: Option<&ClassSetLock>, fw: &Fw<I>) -> (r:
        Result<(), ()>)
        requires
            fw.wf(),
            fw.has_dep(self.type_model()),
            fw.has_prop(dep_prop),
            fw.dep_is(self.type_model().index(), fw.target(dep_prop)),
            lock is Some ==> fw.lock_of(self.type_model().index(), dep_prop) is Some,
        ensures
            r is Ok <==> fw.may_set(self.type_model().index(), dep_prop, presented(lock)),
    {
        match self.type_.set_lock(dep_prop, fw) {
            Some(set_lock) => match lock {
                Some(lock) => if set_lock.0.id == lock.0.id {
                    Ok(())
                } else {
                    Err(())
                },
                None => Err(()),
            },
            None => Ok(()),
        }
    }

    /// Gives the property, which is for the object, a value of its type as
    /// the object's own, if the caller may set it. Returns the value that
    /// the property had of the object's own.
    pub fn set_core(
        &mut self,
        dep_prop: DepProp<I>,
        val: Obj<I>,
        lock: Option<&ClassSetLock>,
        fw: &Fw<I>,
    ) -> (r: Result<Option<Obj<I>>, ()>)
        requires
            fw.wf(),
            fw.has_dep(old(self).type_model()),
            fw.has_prop(dep_prop),
            fw.dep_is(old(self).type_model().index(), fw.target(dep_prop)),
            fw.has_type(val.type_of()),
            fw.type_is(val.type_of(), fw.prop_type(dep_prop)),
            lock is Some ==> fw.lock_of(old(self).type_model().index(), dep_prop) is Some,
        ensures
            r is Ok <==> fw.may_set(old(self).type_model().index(), dep_prop, presented(lock)),
            match r {
                Ok(former) => {
                    &&& former == old(self).local(dep_prop)
                    &&& final(self).local(dep_prop) == Some(val)
                    &&& final(self).value_of(dep_prop, fw) == Some(val)
                    &&& final(self).same_but(old(self), dep_prop)
                },
                Err(_) => *final(self) == *old(self),
            },
    {
        match self.check_set(dep_prop, lock, fw) {
            Ok(_) => {},
            Err(_) => {
                return Err(());
            },
        }
        proof {
            use_type_invariant(&*self);
        }
        let ghost before = self.props@;
        let mut props: Vec<LocalProp<I>> = Vec::new();
        std::mem::swap(&mut props, &mut self.props);
        let former = match find_local(&props, dep_prop) {
            Some(k) => {
                let mut record = LocalProp::new(dep_prop, val);
                std::mem::swap(&mut record, &mut props[k]);
                proof {
                    lemma_local_index(props@, dep_prop, k as int);
                }
                Some(record.val)
            },
            None => {
                props.push(LocalProp::new(dep_prop, val));
                proof {
                    lemma_local_index(props@, dep_prop, before.len() as int);
                }
                None
            },
        };
        proof {
            lemma_local_keys_kept(before, props@);
        }
        let ghost after = props@;
        std::mem::swap(&mut props, &mut self.props);
        proof {
            assert forall|q: DepProp<I>| q != dep_prop implies #[trigger] self.local(q) == old(self).local(q) by {
                lemma_local_index_kept(before, after, q);
            }
        }
        Ok(former)
    }

    /// Takes from the property, which is for the object, the value of the
    /// object's own, if the caller may set the property: its value is the
    /// default again. Doing so twice changes nothing more.
    pub fn reset_core(&mut self, dep_prop: DepProp<I>, lock: Option<&ClassSetLock>, fw: &Fw<I>) -> (r:
        Result<(), ()>)
        requires
            fw.wf(),
            fw.has_dep(old(self).type_model()),
            fw.has_prop(dep_prop),
            fw.dep_is(old(self).type_model().index(), fw.target(dep_prop)),
            lock is Some ==> fw.lock_of(old(self).type_model().index(), dep_prop) is Some,
        ensures
            r is Ok <==> fw.may_set(old(self).type_model().index(), dep_prop, presented(lock)),
            match r {
                Ok(_) => {
                    &&& final(self).local(dep_prop) is None
                    &&& final(self).value_of(dep_prop, fw) == fw.def_val_of(
                        old(self).type_model().index(),
                        dep_prop,
                    )
                    &&& final(self).same_but(old(self), dep_prop)
                },
                Err(_) => *final(self) == *old(self),
            },
    {
        match self.check_set(dep_prop, lock, fw) {
            Ok(_) => {},
            Err(_) => {
                return Err(());
            },
        }
        proof {
            use_type_invariant(&*self);
        }
        let ghost before = self.props@;
        let ghost mut place: int = -1;
        if let Some(k) = find_local(&self.props, dep_prop) {
            let mut props: Vec<LocalProp<I>> = Vec::new();
            std::mem::swap(&mut props, &mut self.props);
            props.remove(k);
            proof {
                place = k as int;
                lemma_local_removed(before, place, dep_prop);
            }
            std::mem::swap(&mut props, &mut self.props);
        }
        proof {
            assert forall|q: DepProp<I>| q != dep_prop implies #[trigger] self.local(q) == old(self).local(q) by {
                lemma_local_removed(before, place, q);
            }
            if place >= 0 {
                lemma_local_removed(before, place, dep_prop);
            }
        }
        Ok(())
    }

    /// Tells the subscribers that the property changed to the value that it
    /// has of the object's own, from `former` or else from the default: each
    /// subscriber for the object's type hears of it, in their order.
    fn notify<H: Hooks<I>>(
        &self,
        dep_prop: DepProp<I>,
        former: &Option<Obj<I>>,
        fw: &Fw<I>,
        hooks: &mut H,
    )
        requires
            fw.wf(),
            fw.has_dep(self.type_model()),
            fw.has_prop(dep_prop),
            fw.dep_is(self.type_model().index(), fw.target(dep_prop)),
            self.local(dep_prop) is Some,
            old(hooks).inv(),
        ensures
            final(hooks).inv(),
            heard(
                old(hooks),
                final(hooks),
                fw.hooks_of(self.type_model().index(), dep_prop),
                self,
                &match *former {
                    Some(v) => v,
                    None => fw.def_val_of(self.type_model().index(), dep_prop)->0,
                },
                &self.local(dep_prop)->0,
                fw,
            ),
    {
        let old_val = match former {
            Some(v) => v,
            None => self.type_.def_val(dep_prop, fw),
        };
        let new_val = self.get(dep_prop, fw);
        let list = self.type_.subscribers(dep_prop, fw);
        let mut i: usize = 0;
        proof {
            assert(list@.subrange(0, 0) =~= Seq::<Hook>::empty());
        }
        while i < list.len()
            invariant
                i <= list.len(),
                fw.wf(),
                fw.has_dep(self.type_model()),
                hooks.inv(),
                heard(old(hooks), hooks, list@.subrange(0, i as int), self, old_val, new_val, fw),
            decreases list.len() - i,
        {
            let ghost mid = *hooks;
            hooks.changed(list[i], self, old_val, new_val, fw);
            proof {
                let part = list@.subrange(0, i + 1);
                assert(part.drop_last() =~= list@.subrange(0, i as int));
                assert(part.last() == list@[i as int]);
                assert(mid.hears(hooks, part.last(), self, old_val, new_val, fw));
            }
            i = i + 1;
        }
        proof {
            assert(list@.subrange(0, i as int) =~= list@);
        }
    }

    /// Gives the property, which is for the object, a value of its type as
    /// the object's own, and tells the subscribers of the change: each
    /// subscriber for the object's type hears, in their order, of the value
    /// that the property had and of the new one. Fails, and changes
    /// nothing, where the setter of the property is locked for the object.
    pub fn set<H: Hooks<I>>(&mut self, dep_prop: DepProp<I>, val: Obj<I>, fw: &Fw<I>, hooks: &mut H) -> (r:
        Result<(), ()>)
        requires
            fw.wf(),
            fw.has_dep(old(self).type_model()),
            fw.has_prop(dep_prop),
            fw.dep_is(old(self).type_model().index(), fw.target(dep_prop)),
            fw.has_type(val.type_of()),
            fw.type_is(val.type_of(), fw.prop_type(dep_prop)),
            old(hooks).inv(),
        ensures
            final(hooks).inv(),
            r is Ok <==> fw.lock_of(old(self).type_model().index(), dep_prop) is None,
            match r {
                Ok(_) => {
                    &&& final(self).local(dep_prop) == Some(val)
                    &&& final(self).value_of(dep_prop, fw) == Some(val)
                    &&& final(self).same_but(old(self), dep_prop)
                    &&& heard(
                        old(hooks),
                        final(hooks),
                        fw.hooks_of(old(self).type_model().index(), dep_prop),
                        final(self),
                        &old(self).value_of(dep_prop, fw)->0,
                        &val,
                        fw,
                    )
                },
                Err(_) => *final(self) == *old(self) && *final(hooks) == *old(hooks),
            },
    {
        match self.set_core(dep_prop, val, None, fw) {
            Ok(former) => {
                self.notify(dep_prop, &former, fw, hooks);
                Ok(())
            },
            Err(_) => Err(()),
        }
    }

    /// Gives the property, whose setter is locked with `lock` for the
    /// object, a value of its type as the object's own, and tells the
    /// subscribers of the change, as `set` does.
    pub fn set_locked<H: Hooks<I>>(
        &mut self,
        dep_prop: DepProp<I>,
        val: Obj<I>,
        lock: &ClassSetLock,
        fw: &Fw<I>,
        hooks: &mut H,
    )
        requires
            fw.wf(),
            fw.has_dep(old(self).type_model()),
            fw.has_prop(dep_prop),
            fw.dep_is(old(self).type_model().index(), fw.target(dep_prop)),
            fw.has_type(val.type_of()),
            fw.type_is(val.type_of(), fw.prop_type(dep_prop)),
            fw.lock_of(old(self).type_model().index(), dep_prop) == Some(*lock),
            old(hooks).inv(),
        ensures
            final(hooks).inv(),
            final(self).local(dep_prop) == Some(val),
            final(self).value_of(dep_prop, fw) == Some(val),
            final(self).same_but(old(self), dep_prop),
            heard(
                old(hooks),
                final(hooks),
                fw.hooks_of(old(self).type_model().index(), dep_prop),
                final(self),
                &old(self).value_of(dep_prop, fw)->0,
                &val,
                fw,
            ),
    {
        match self.set_core(dep_prop, val, Some(lock), fw) {
            Ok(former) => {
                self.notify(dep_prop, &former, fw, hooks);
            },
            Err(_) => {},
        }
    }

    /// Takes from the property, which is for the object, the value of the
    /// object's own. Fails, and changes nothing, where the setter of the
    /// property is locked for the object.
    pub fn reset(&mut self, dep_prop: DepProp<I>, fw: &Fw<I>) -> (r: Result<(), ()>)
        requires
            fw.wf(),
            fw.has_dep(old(self).type_model()),
            fw.has_prop(dep_prop),
            fw.dep_is(old(self).type_model().index(), fw.target(dep_prop)),
        ensures
            r is Ok <==> fw.lock_of(old(self).type_model().index(), dep_prop) is None,
            match r {
                Ok(_) => {
                    &&& final(self).local(dep_prop) is None
                    &&& final(self).value_of(dep_prop, fw) == fw.def_val_of(
                        old(self).type_model().index(),
                        dep_prop,
                    )
                    &&& final(self).same_but(old(self), dep_prop)
                },
                Err(_) => *final(self) == *old(self),
            },
    {
        self.reset_core(dep_prop, None, fw)
    }

    /// Takes from the property, whose setter is locked for the object, the
    /// value of the object's own. Fails, and changes nothing, where `lock`
    /// is not the lock.
    pub fn reset_locked(&mut self, dep_prop: DepProp<I>, lock: &ClassSetLock, fw: &Fw<I>) -> (r: Result<
        (),
        (),
    >)
        requires
            fw.wf(),
            fw.has_dep(old(self).type_model()),
            fw.has_prop(dep_prop),
            fw.dep_is(old(self).type_model().index(), fw.target(dep_prop)),
            fw.lock_of(old(self).type_model().index(), dep_prop) is Some,
        ensures
            r is Ok <==> fw.lock_of(old(self).type_model().index(), dep_prop) == Some(*lock),
            match r {
                Ok(_) => {
                    &&& final(self).local(dep_prop) is None
                    &&& final(self).value_of(dep_prop, fw) == fw.def_val_of(
                        old(self).type_model().index(),
                        dep_prop,
                    )
                    &&& final(self).same_but(old(self), dep_prop)
                },
                Err(_) => *final(self) == *old(self),
            },
    {
        self.reset_core(dep_prop, Some(lock), fw)
    }
}

impl<I> DepType<I> {
    /// A new object of this type, on which the constructors of the types
    /// in the base chain were run, the root's first.
    pub fn create<H: Hooks<I>>(self, fw: &Fw<I>, hooks: &mut H) -> (obj: DepObj<I>)
        requires
            fw.wf(),
            fw.has_dep(self),
            old(hooks).inv(),
        ensures
            final(hooks).inv(),
            obj.type_model() == self,
            constructed(old(hooks), final(hooks), fw.ctors_of(self.index()), self, &obj, fw),
            fw.ctors_of(self.index()).len() == 0 ==> *final(hooks) == *old(hooks) && obj.is_blank(self),
    {
        let mut obj = DepObj::new(self);
        let ctors = self.init(fw);
        let mut i: usize = 0;
        proof {
            assert(ctors@.subrange(0, 0) =~= Seq::<Hook>::empty());
        }
        while i < ctors.len()
            invariant
                i <= ctors.len(),
                fw.wf(),
                fw.has_dep(self),
                obj.type_model() == self,
                hooks.inv(),
                constructed(old(hooks), hooks, ctors@.subrange(0, i as int), self, &obj, fw),
            decreases ctors.len() - i,
        {
            let ghost mid = *hooks;
            let ghost part = obj;
            hooks.construct(ctors[i], &mut obj, fw);
            let ghost raw = obj;
            proof {
                use_type_invariant(&obj);
            }
            obj.type_ = self;
            proof {
                let list = ctors@.subrange(0, i + 1);
                assert(list.drop_last() =~= ctors@.subrange(0, i as int));
                assert(list.last() == ctors@[i as int]);
                assert(obj.holds_as(&raw, self));
                assert(mid.builds(hooks, list.last(), &part, &raw, fw));
            }
            i = i + 1;
        }
        proof {
            assert(ctors@.subrange(0, i as int) =~= ctors@);
        }
        obj
    }
}

/// A property for which no class holds a lock is locked for no type.
pub proof fn law_no_lock<I>(fw: &Fw<I>, p: DepProp<I>, t: int)
    requires
        fw.wf(),
        0 <= t < fw.dep_count(),
        forall|u: int| 0 <= u < fw.dep_count() ==> (#[trigger] fw.class_lock(u, p)) is None,
    ensures
        fw.lock_of(t, p) is None,
    decreases t,
{
    fw.lemma_wf();
    if let Some(b) = fw.base_of(t) {
        law_no_lock(fw, p, b.index());
    }
}

/// A property for which no class holds a subscriber has none for any type.
pub proof fn law_no_hooks<I>(fw: &Fw<I>, p: DepProp<I>, t: int)
    requires
        fw.wf(),
        0 <= t < fw.dep_count(),
        forall|u: int|
            0 <= u < fw.dep_count() ==> (#[trigger] fw.class_hooks(u, p)) == Seq::<Hook>::empty(),
    ensures
        fw.hooks_of(t, p) == Seq::<Hook>::empty(),
    decreases t,
{
    fw.lemma_wf();
    if let Some(b) = fw.base_of(t) {
        law_no_hooks(fw, p, b.index());
    }
}

/// A class has the default of the nearest class in its base chain that
/// holds one: that of `c`, where no class between it and `c` holds one.
pub proof fn law_default_inherited<I>(fw: &Fw<I>, a: int, c: int, p: DepProp<I>)
    requires
        fw.dep_is(a, c),
        fw.class_def(c, p) is Some,
        forall|t: int| fw.dep_is(a, t) && fw.dep_is(t, c) && t != c ==> fw.class_def(t, p) is None,
    ensures
        fw.def_val_of(a, p) == fw.class_def(c, p),
    decreases a,
{
    if a != c {
        assert(fw.dep_is(a, a));
        let b = fw.base_of(a)->0.index();
        assert forall|t: int| fw.dep_is(b, t) && fw.dep_is(t, c) && t != c implies fw.class_def(t, p)
            is None by {
            assert(fw.dep_is(a, t));
        }
        law_default_inherited(fw, b, c, p);
    }
}

/// A default that a class got for a property shadows that of its bases for
/// the class and for the classes that build on it, down to the next class
/// with a default of its own; for every other class the default is what it
/// was.
pub proof fn law_override_shadows<I>(new: &Fw<I>, old: &Fw<I>, b: int, p: DepProp<I>, a: int)
    requires
        old.wf(),
        0 <= a < old.dep_count(),
        0 <= b < old.dep_count(),
        new.same_but(old, b, Some(p)),
        new.class_def(b, p) is Some,
    ensures
        !old.dep_is(a, b) ==> new.def_val_of(a, p) == old.def_val_of(a, p),
        old.dep_is(a, b) && (forall|t: int|
            old.dep_is(a, t) && old.dep_is(t, b) && t != b ==> old.class_def(t, p) is None)
            ==> new.def_val_of(a, p) == new.class_def(b, p),
        forall|q: DepProp<I>| q != p ==> new.def_val_of(a, q) == old.def_val_of(a, q),
    decreases a,
{
    old.lemma_wf();
    assert(new.same_type(old, a));
    assert forall|q: DepProp<I>| q != p implies new.def_val_of(a, q) == old.def_val_of(a, q) by {
        lemma_def_kept(new, old, b, p, a, q);
    }
    if a != b {
        assert(new.same_class(old, a, None));
        if let Some(base) = old.base_of(a) {
            law_override_shadows(new, old, b, p, base.index());
            if old.dep_is(a, b) && (forall|t: int|
                old.dep_is(a, t) && old.dep_is(t, b) && t != b ==> old.class_def(t, p) is None) {
                assert(old.dep_is(a, a));
                assert forall|t: int|
                    old.dep_is(base.index(), t) && old.dep_is(t, b) && t != b implies old.class_def(
                    t,
                    p,
                ) is None by {
                    assert(old.dep_is(a, t));
                }
            }
        }
    }
}

proof fn lemma_def_kept<I>(new: &Fw<I>, old: &Fw<I>, b: int, p: DepProp<I>, a: int, q: DepProp<I>)
    requires
        old.wf(),
        0 <= a < old.dep_count(),
        new.same_but(old, b, Some(p)),
        q != p,
    ensures
        new.def_val_of(a, q) == old.def_val_of(a, q),
    decreases a,
{
    old.lemma_wf();
    assert(new.same_type(old, a));
    if a == b {
        assert(new.same_class(old, a, Some(p)));
    } else {
        assert(new.same_class(old, a, None));
    }
    if let Some(base) = old.base_of(a) {
        lemma_def_kept(new, old, b, p, base.index(), q);
    }
}

/// A class has the set lock of the nearest class in its base chain that
/// holds one: that of `c`, where no class between it and `c` holds one.
/// Then no caller may set the property without the lock, and a caller with
/// the lock may.
pub proof fn law_lock_inherited<I>(fw: &Fw<I>, a: int, c: int, p: DepProp<I>)
    requires
        fw.dep_is(a, c),
        fw.class_lock(c, p) is Some,
        forall|t: int| fw.dep_is(a, t) && fw.dep_is(t, c) && t != c ==> fw.class_lock(t, p) is None,
    ensures
        fw.lock_of(a, p) == fw.class_lock(c, p),
        !fw.may_set(a, p, None),
        fw.may_set(a, p, fw.class_lock(c, p)),
        forall|other: ClassSetLock| Some(other) != fw.class_lock(c, p) ==> !fw.may_set(a, p, Some(other)),
    decreases a,
{
    if a != c {
        assert(fw.dep_is(a, a));
        let b = fw.base_of(a)->0.index();
        assert forall|t: int| fw.dep_is(b, t) && fw.dep_is(t, c) && t != c implies fw.class_lock(t, p)
            is None by {
            assert(fw.dep_is(a, t));
        }
        law_lock_inherited(fw, b, c, p);
    }
}

/// Taking the value of its own from a property twice leaves the object as
/// taking it once does.
pub proof fn law_reset_idempotent<I>(a: &DepObj<I>, b: &DepObj<I>, c: &DepObj<I>, p: DepProp<I>, fw: &Fw<I>)
    requires
        b.local(p) is None,
        b.same_but(a, p),
        c.local(p) is None,
        c.same_but(b, p),
    ensures
        c.type_model() == b.type_model(),
        forall|q: DepProp<I>| c.local(q) == b.local(q),
        forall|q: DepProp<I>| c.value_of(q, fw) == b.value_of(q, fw),
        forall|key: DepObjDataKey| c.slot(key) == b.slot(key),
{
    assert forall|q: DepProp<I>| c.local(q) == b.local(q) by {
        if q != p {
            assert(c.local(q) == b.local(q));
        }
    }
}

} // verus!
