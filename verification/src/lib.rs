//! A toolkit for text user interfaces: windows of character cells that are
//! composited onto a terminal, and a framework of dependency objects whose
//! properties describe what is shown. The shell of this module binds
//! the two: a visual is a dependency object that owns a window, and its
//! bounds and parent are properties.

use crate::fw::{
    heard, hold, law_heard_one, ClassSetLock, DepObj, DepObjDataKey, DepProp, DepRef, DepType, Fw, Hook, Hooks,
    Obj, Payload, Type, Val, ValType, ValTypeDesc,
};
use crate::geometry::{area_tlhw, Rect};
use crate::scr::{Key, Scr, Texel};
use crate::text::{
    bool_of_text, format_bool, format_rect, parse_bool, parse_rect, rect_of_text, text_of_bool,
    text_of_rect,
};
use crate::window::{area_invalidated, repainted, Attach, Painted, Window, WindowsHost};
use either::Either;
use vstd::prelude::*;

pub mod draw;
pub mod fw;
pub mod geometry;
pub mod order;
pub mod scr;
pub mod text;
pub mod window;

verus! {

/// Describes the value type of strings, which are written as they are.
pub struct StrTypeDesc {}

impl StrTypeDesc {
    /// The string that the text stands for: the text.
    pub fn read(s: &str) -> (r: String)
        ensures
            r@ == s@,
    {
        s.to_owned()
    }

    /// The text that stands for the string: the string.
    pub fn write(p: &Payload) -> (r: String)
        ensures
            p matches Payload::Str(s) ==> r@ == s@,
            !(p is Str) ==> r@ == Seq::<char>::empty(),
    {
        match p {
            Payload::Str(s) => s.clone(),
            _ => String::new(),
        }
    }
}

impl<I> ValTypeDesc<I> for StrTypeDesc {
    open spec fn name_model(&self) -> &str {
        "Str"
    }

    open spec fn accepts(&self, s: &str) -> bool {
        true
    }

    open spec fn reads(&self, s: &str, p: &Payload) -> bool {
        p matches Payload::Str(t) && t@ == s@
    }

    open spec fn writes(&self, p: &Payload, text: &String) -> bool {
        match p {
            Payload::Str(t) => text@ == t@,
            _ => text@ == Seq::<char>::empty(),
        }
    }

    fn name(&self) -> (r: &str) {
        "Str"
    }

    fn parse(&self, type_: ValType<I>, s: &str) -> (r: Option<Val<I>>)
        ensures
            r matches Some(v) && v.type_model() == type_,
    {
        Some(type_.box_(StrTypeDesc::read(s)))
    }

    fn to_string(&self, val: &Val<I>) -> (r: String) {
        StrTypeDesc::write(val.raw())
    }
}

/// Describes the value type of booleans, which are written as `True` and
/// `False`.
pub struct BoolTypeDesc {}

impl BoolTypeDesc {
    /// The boolean that the text stands for.
    pub fn read(s: &str) -> (r: Option<bool>)
        ensures
            r == bool_of_text(s@),
    {
        parse_bool(s)
    }

    /// The text that stands for the boolean; nothing for what is no
    /// boolean.
    pub fn write(p: &Payload) -> (r: String)
        ensures
            p matches Payload::Bool(b) ==> r@ == text_of_bool(*b),
            !(p is Bool) ==> r@ == Seq::<char>::empty(),
    {
        match p {
            Payload::Bool(b) => format_bool(*b),
            _ => String::new(),
        }
    }
}

impl<I> ValTypeDesc<I> for BoolTypeDesc {
    open spec fn name_model(&self) -> &str {
        "Bool"
    }

    open spec fn accepts(&self, s: &str) -> bool {
        bool_of_text(s@) is Some
    }

    open spec fn reads(&self, s: &str, p: &Payload) -> bool {
        bool_of_text(s@) matches Some(b) && *p == Payload::Bool(b)
    }

    open spec fn writes(&self, p: &Payload, text: &String) -> bool {
        match p {
            Payload::Bool(b) => text@ == text_of_bool(*b),
            _ => text@ == Seq::<char>::empty(),
        }
    }

    fn name(&self) -> (r: &str) {
        "Bool"
    }

    fn parse(&self, type_: ValType<I>, s: &str) -> (r: Option<Val<I>>)
        ensures
            r matches Some(v) ==> v.type_model() == type_,
    {
        match BoolTypeDesc::read(s) {
            Some(b) => Some(type_.box_(b)),
            None => None,
        }
    }

    fn to_string(&self, val: &Val<I>) -> (r: String) {
        BoolTypeDesc::write(val.raw())
    }
}

/// Describes the value type of rectangles, which are written as their top,
/// left, height and width with commas between them, and as nothing when
/// empty.
pub struct RectTypeDesc {}

impl RectTypeDesc {
    /// The rectangle that the text stands for.
    pub fn read(s: &str) -> (r: Option<Rect>)
        ensures
            match rect_of_text(s@) {
                Some(a) => r is Some && r->0@ == a,
                None => r is None,
            },
    {
        parse_rect(s)
    }

    /// The text that stands for the rectangle; nothing for what is no
    /// rectangle.
    pub fn write(p: &Payload) -> (r: String)
        ensures
            p matches Payload::Rect(rect) ==> r@ == text_of_rect(rect@),
            !(p is Rect) ==> r@ == Seq::<char>::empty(),
    {
        match p {
            Payload::Rect(rect) => format_rect(rect),
            _ => String::new(),
        }
    }
}

impl<I> ValTypeDesc<I> for RectTypeDesc {
    open spec fn name_model(&self) -> &str {
        "Rect"
    }

    open spec fn accepts(&self, s: &str) -> bool {
        rect_of_text(s@) is Some
    }

    open spec fn reads(&self, s: &str, p: &Payload) -> bool {
        rect_of_text(s@) matches Some(a) && (p matches Payload::Rect(rect) && rect@ == a)
    }

    open spec fn writes(&self, p: &Payload, text: &String) -> bool {
        match p {
            Payload::Rect(rect) => text@ == text_of_rect(rect@),
            _ => text@ == Seq::<char>::empty(),
        }
    }

    fn name(&self) -> (r: &str) {
        "Rect"
    }

    fn parse(&self, type_: ValType<I>, s: &str) -> (r: Option<Val<I>>)
        ensures
            r matches Some(v) ==> v.type_model() == type_,
    {
        match RectTypeDesc::read(s) {
            Some(rect) => Some(type_.box_(rect)),
            None => None,
        }
    }

    fn to_string(&self, val: &Val<I>) -> (r: String) {
        RectTypeDesc::write(val.raw())
    }
}

/// What the main loop does on a key press.
#[derive(Debug, Clone, Copy, PartialEq, Eq)]
pub enum Action {
    /// Give the root the size of the terminal again, and repaint.
    Resize,
    /// Leave the loop.
    Quit,
    /// Repaint.
    Repaint,
}

/// What the main loop does on a key press: the terminal was resized, the
/// user typed `q`, or anything else.
pub fn key_action(input: &Either<Key, char>) -> (a: Action)
    ensures
        a == match *input {
            Either::Left(key) => if key.value == Key::RESIZE {
                Action::Resize
            } else {
                Action::Repaint
            },
            Either::Right(c) => if c == 'q' {
                Action::Quit
            } else {
                Action::Repaint
            },
        },
{
    match input {
        Either::Left(key) => if key.value == Key::RESIZE {
            Action::Resize
        } else {
            Action::Repaint
        },
        Either::Right(c) => if *c == 'q' {
            Action::Quit
        } else {
            Action::Repaint
        },
    }
}

/// The shell: the types and properties of visuals in a registry, and the
/// host of their windows.
pub struct Ntfl<I> {
    str_type: ValType<I>,
    bool_type: ValType<I>,
    rect_type: ValType<I>,
    visual_type: DepType<I>,
    visual_bounds_prop: DepProp<I>,
    visual_parent_prop: DepProp<I>,
    root_type: DepType<I>,
    root_bounds_lock: ClassSetLock,
    visual_window: DepObjDataKey,
    host: WindowsHost,
}

impl<I> Ntfl<I> {
    /// Hook of the constructor of visuals, which makes the window.
    pub const VISUAL_CTOR: usize = 0;

    /// Hook of the constructor of roots, which attaches the window to the
    /// host.
    pub const ROOT_CTOR: usize = 1;

    /// Hook of the subscriber to the bounds of visuals.
    pub const BOUNDS_CHANGED: usize = 2;

    /// Hook of the subscriber to the parent of visuals.
    pub const PARENT_CHANGED: usize = 3;

    /// The value type of strings.
    pub closed spec fn str_model(&self) -> ValType<I> {
        self.str_type
    }

    /// The value type of booleans.
    pub closed spec fn bool_model(&self) -> ValType<I> {
        self.bool_type
    }

    /// The value type of rectangles.
    pub closed spec fn rect_model(&self) -> ValType<I> {
        self.rect_type
    }

    /// The dependency type of visuals.
    pub closed spec fn visual_model(&self) -> DepType<I> {
        self.visual_type
    }

    /// The dependency type of roots, which are visuals.
    pub closed spec fn root_model(&self) -> DepType<I> {
        self.root_type
    }

    /// The property of visuals that holds their bounds.
    pub closed spec fn bounds_model(&self) -> DepProp<I> {
        self.visual_bounds_prop
    }

    /// The property of visuals that holds their parent.
    pub closed spec fn parent_model(&self) -> DepProp<I> {
        self.visual_parent_prop
    }

    /// The lock on the bounds of roots.
    pub closed spec fn lock_model(&self) -> ClassSetLock {
        self.root_bounds_lock
    }

    /// The key of the data slot that holds the window of a visual.
    pub closed spec fn key_model(&self) -> DepObjDataKey {
        self.visual_window
    }

    /// The host of the windows of the visuals.
    pub closed spec fn host_model(&self) -> WindowsHost {
        self.host
    }

    /// The registry holds the types and properties of the shell: the value
    /// types; visuals, with their bounds, which are empty by default, and
    /// their parent, which is nothing by default; and roots, which are
    /// visuals whose bounds and parent are locked.
    pub open spec fn linked(&self, fw: &Fw<I>) -> bool {
        let visual = self.visual_model().index();
        let root = self.root_model().index();
        &&& fw.has_val(self.str_model())
        &&& fw.has_val(self.bool_model())
        &&& fw.has_val(self.rect_model())
        &&& fw.val_name(self.str_model().index()) == "Str"@
        &&& fw.val_name(self.bool_model().index()) == "Bool"@
        &&& fw.val_name(self.rect_model().index()) == "Rect"@
        &&& takes_str(fw, self.str_model().index())
        &&& takes_bool(fw, self.bool_model().index())
        &&& takes_rect(fw, self.rect_model().index())
        &&& fw.has_dep(self.visual_model())
        &&& fw.has_dep(self.root_model())
        &&& fw.dep_name(visual) == "Visual"@
        &&& fw.dep_name(root) == "Root"@
        &&& fw.base_of(visual) is None
        &&& fw.base_of(root) == Some(self.visual_model())
        &&& fw.ctor_of(visual) == Some(Hook { id: Self::VISUAL_CTOR })
        &&& fw.ctor_of(root) == Some(Hook { id: Self::ROOT_CTOR })
        &&& fw.has_prop(self.bounds_model())
        &&& fw.has_prop(self.parent_model())
        &&& self.bounds_model().owner_index() == visual
        &&& self.parent_model().owner_index() == visual
        &&& self.bounds_model() != self.parent_model()
        &&& fw.prop_name(self.bounds_model()) == "Bounds"@
        &&& fw.prop_name(self.parent_model()) == "Parent"@
        &&& fw.prop_type(self.bounds_model()) == Type::Val(self.rect_model())
        &&& fw.prop_type(self.parent_model()) == Type::Opt(Box::new(Type::Dep(self.visual_model())))
        &&& fw.prop_attached(self.bounds_model()) is None
        &&& fw.prop_attached(self.parent_model()) is None
        &&& fw.class_def(visual, self.bounds_model()) matches Some(Obj::Val(v)) && v.type_model()
            == self.rect_model() && (v.payload() matches Payload::Rect(r) && r@ is None)
        &&& fw.class_def(visual, self.parent_model()) == Some(
            Obj::Nil(Type::Dep(self.visual_model())),
        )
        &&& fw.class_lock(visual, self.bounds_model()) is None
        &&& fw.class_lock(visual, self.parent_model()) is None
        &&& fw.class_lock(root, self.bounds_model()) == Some(self.lock_model())
        &&& fw.class_lock(root, self.parent_model()) is Some
        &&& fw.class_hooks(visual, self.bounds_model()) == seq![Hook { id: Self::BOUNDS_CHANGED }]
        &&& fw.class_hooks(visual, self.parent_model()) == seq![Hook { id: Self::PARENT_CHANGED }]
        &&& self.key_model().serial() < fw.issued_count()
    }

    /// The class of roots holds no default and no subscriber of its own
    /// for the bounds and the parent of visuals: roots have the defaults
    /// and the subscribers of visuals.
    pub open spec fn plain_root(&self, fw: &Fw<I>) -> bool {
        let root = self.root_model().index();
        &&& fw.class_def(root, self.bounds_model()) is None
        &&& fw.class_def(root, self.parent_model()) is None
        &&& fw.class_hooks(root, self.bounds_model()) == Seq::<Hook>::empty()
        &&& fw.class_hooks(root, self.parent_model()) == Seq::<Hook>::empty()
    }

    /// The value type of strings.
    pub fn str_type(&self) -> (r: ValType<I>)
        ensures
            r == self.str_model(),
    {
        self.str_type
    }

    /// The value type of booleans.
    pub fn bool_type(&self) -> (r: ValType<I>)
        ensures
            r == self.bool_model(),
    {
        self.bool_type
    }

    /// The value type of rectangles.
    pub fn rect_type(&self) -> (r: ValType<I>)
        ensures
            r == self.rect_model(),
    {
        self.rect_type
    }

    /// The dependency type of visuals.
    pub fn visual_type(&self) -> (r: DepType<I>)
        ensures
            r == self.visual_model(),
    {
        self.visual_type
    }

    /// The property of visuals that holds their bounds.
    pub fn visual_bounds_prop(&self) -> (r: DepProp<I>)
        ensures
            r == self.bounds_model(),
    {
        self.visual_bounds_prop
    }

    /// The property of visuals that holds their parent.
    pub fn visual_parent_prop(&self) -> (r: DepProp<I>)
        ensures
            r == self.parent_model(),
    {
        self.visual_parent_prop
    }

    /// The dependency type of roots.
    pub fn root_type(&self) -> (r: DepType<I>)
        ensures
            r == self.root_model(),
    {
        self.root_type
    }

    /// The host of the windows of the visuals.
    pub fn host(&self) -> (r: &WindowsHost)
        ensures
            *r == self.host_model(),
    {
        &self.host
    }
}

/// The names that the shell registers differ from each other.
proof fn lemma_names()
    ensures
        "Str"@ != "Bool"@,
        "Str"@ != "Rect"@,
        "Bool"@ != "Rect"@,
        "Visual"@ != "Root"@,
        "Bounds"@ != "Parent"@,
{
    reveal_strlit("Str");
    reveal_strlit("Bool");
    reveal_strlit("Rect");
    reveal_strlit("Visual");
    reveal_strlit("Root");
    reveal_strlit("Bounds");
    reveal_strlit("Parent");
    assert("Str"@.len() == 3 && "Bool"@.len() == 4 && "Rect"@.len() == 4);
    assert("Bool"@[0] == 'B' && "Rect"@[0] == 'R');
    assert("Visual"@.len() == 6 && "Root"@.len() == 4);
    assert("Bounds"@[0] == 'B' && "Parent"@[0] == 'P');
}

/// Whether the value type with the number `i` accepts every text, and reads
/// and writes a string as it is.
pub open spec fn takes_str<I>(fw: &Fw<I>, i: int) -> bool {
    &&& forall|s: &str| #[trigger] fw.val_accepts(i, s)
    &&& forall|s: &str, p: &Payload|
        #[trigger] fw.val_reads(i, s, p) <==> (p matches Payload::Str(t) && t@ == s@)
    &&& forall|p: &Payload, text: &String|
        #[trigger] fw.val_writes(i, p, text) <==> text@ == match p {
            Payload::Str(t) => t@,
            _ => Seq::<char>::empty(),
        }
}

/// Whether the value type with the number `i` accepts `True` and `False`,
/// and reads and writes a boolean as one of them.
pub open spec fn takes_bool<I>(fw: &Fw<I>, i: int) -> bool {
    &&& forall|s: &str| #[trigger] fw.val_accepts(i, s) <==> bool_of_text(s@) is Some
    &&& forall|s: &str, p: &Payload|
        #[trigger] fw.val_reads(i, s, p) <==> (bool_of_text(s@) matches Some(b) && *p == Payload::Bool(
            b,
        ))
    &&& forall|p: &Payload, text: &String|
        #[trigger] fw.val_writes(i, p, text) <==> text@ == match p {
            Payload::Bool(b) => text_of_bool(*b),
            _ => Seq::<char>::empty(),
        }
}

/// Whether the value type with the number `i` accepts the texts that stand
/// for a rectangle, and reads and writes a rectangle as its text.
pub open spec fn takes_rect<I>(fw: &Fw<I>, i: int) -> bool {
    &&& forall|s: &str| #[trigger] fw.val_accepts(i, s) <==> rect_of_text(s@) is Some
    &&& forall|s: &str, p: &Payload|
        #[trigger] fw.val_reads(i, s, p) <==> (rect_of_text(s@) matches Some(a) && (
        p matches Payload::Rect(rect) && rect@ == a))
    &&& forall|p: &Payload, text: &String|
        #[trigger] fw.val_writes(i, p, text) <==> text@ == match p {
            Payload::Rect(rect) => text_of_rect(rect@),
            _ => Seq::<char>::empty(),
        }
}

/// Value types that are described in `new` as in `old` take in `new` what
/// they take in `old`.
proof fn lemma_takes_kept<I>(new: &Fw<I>, old: &Fw<I>, s: int, b: int, r: int)
    requires
        new.same_desc(old, s),
        new.same_desc(old, b),
        new.same_desc(old, r),
        takes_str(old, s),
        takes_bool(old, b),
        takes_rect(old, r),
    ensures
        takes_str(new, s),
        takes_bool(new, b),
        takes_rect(new, r),
{
}

/// The description of strings: it has the name `Str`, accepts every text,
/// and reads and writes a string as it is.
fn str_desc<I>() -> (r: Box<dyn ValTypeDesc<I>>)
    ensures
        r.name_model()@ == "Str"@,
        forall|s: &str| #[trigger] r.accepts(s),
        forall|s: &str, p: &Payload|
            #[trigger] r.reads(s, p) <==> (p matches Payload::Str(t) && t@ == s@),
        forall|p: &Payload, text: &String|
            #[trigger] r.writes(p, text) <==> text@ == match p {
                Payload::Str(t) => t@,
                _ => Seq::<char>::empty(),
            },
{
    return Box::new(StrTypeDesc {});
}

/// The description of booleans: it has the name `Bool`, accepts `True` and
/// `False`, and reads and writes a boolean as one of them.
fn bool_desc<I>() -> (r: Box<dyn ValTypeDesc<I>>)
    ensures
        r.name_model()@ == "Bool"@,
        forall|s: &str| #[trigger] r.accepts(s) <==> bool_of_text(s@) is Some,
        forall|s: &str, p: &Payload|
            #[trigger] r.reads(s, p) <==> (bool_of_text(s@) matches Some(b) && *p == Payload::Bool(
                b,
            )),
        forall|p: &Payload, text: &String|
            #[trigger] r.writes(p, text) <==> text@ == match p {
                Payload::Bool(b) => text_of_bool(*b),
                _ => Seq::<char>::empty(),
            },
{
    return Box::new(BoolTypeDesc {});
}

/// The description of rectangles: it has the name `Rect`, accepts the texts
/// that stand for a rectangle, and reads and writes a rectangle as its
/// text.
fn rect_desc<I>() -> (r: Box<dyn ValTypeDesc<I>>)
    ensures
        r.name_model()@ == "Rect"@,
        forall|s: &str| #[trigger] r.accepts(s) <==> rect_of_text(s@) is Some,
        forall|s: &str, p: &Payload|
            #[trigger] r.reads(s, p) <==> (rect_of_text(s@) matches Some(a) && (
            p matches Payload::Rect(rect) && rect@ == a)),
        forall|p: &Payload, text: &String|
            #[trigger] r.writes(p, text) <==> text@ == match p {
                Payload::Rect(rect) => text_of_rect(rect@),
                _ => Seq::<char>::empty(),
            },
{
    return Box::new(RectTypeDesc {});
}

impl<I> Ntfl<I> {
    /// Whether the registry has room for what the shell registers, and
    /// holds none of its names yet.
    pub open spec fn fits(fw: &Fw<I>) -> bool {
        &&& fw.wf()
        &&& !fw.val_named("Str"@)
        &&& !fw.val_named("Bool"@)
        &&& !fw.val_named("Rect"@)
        &&& !fw.dep_named("Visual"@)
        &&& !fw.dep_named("Root"@)
        &&& fw.val_count() + 3 <= usize::MAX
        &&& fw.dep_count() + 2 <= usize::MAX
        &&& fw.issued_count() + 3 <= u64::MAX
    }

    /// Registers the value types of strings, booleans and rectangles, the
    /// type of visuals with its bounds and its parent, and the type of
    /// roots, for which both are locked; and makes the host of the windows.
    pub fn new(fw: &mut Fw<I>) -> (ntfl: Ntfl<I>)
        requires
            Self::fits(old(fw)),
        ensures
            final(fw).wf(),
            ntfl.linked(final(fw)),
            ntfl.plain_root(final(fw)),
            ntfl.host_model().wf(),
            ntfl.host_model().count() == 0,
            ntfl.str_model().index() == old(fw).val_count(),
            ntfl.visual_model().index() == old(fw).dep_count(),
            final(fw).val_count() == old(fw).val_count() + 3,
            final(fw).dep_count() == old(fw).dep_count() + 2,
            final(fw).issued_count() == old(fw).issued_count() + 3,
    {
        proof {
            lemma_names();
        }
        let str_held = hold(str_desc());
        let str_type = match fw.reg_held_named("Str".to_owned(), str_held) {
            Some(t) => t,
            None => vstd::pervasive::unreached(),
        };
        let ghost with_str = *fw;
        proof {
            assert(!with_str.val_named("Bool"@)) by {
                if with_str.val_named("Bool"@) {
                    let i = choose|i: int| 0 <= i < with_str.val_count() && #[trigger] with_str.val_name(i)
                        == "Bool"@;
                    assert(old(fw).val_name(i) == "Bool"@);
                }
            }
        }
        let bool_held = hold(bool_desc());
        let bool_type = match fw.reg_held_named("Bool".to_owned(), bool_held) {
            Some(t) => t,
            None => vstd::pervasive::unreached(),
        };
        let ghost with_bool = *fw;
        proof {
            assert(!with_bool.val_named("Rect"@)) by {
                if with_bool.val_named("Rect"@) {
                    let i = choose|i: int| 0 <= i < with_bool.val_count() && #[trigger] with_bool.val_name(i)
                        == "Rect"@;
                    if i < with_str.val_count() {
                        assert(with_str.val_name(i) == "Rect"@);
                        if i < old(fw).val_count() {
                            assert(old(fw).val_name(i) == "Rect"@);
                        }
                    }
                }
            }
        }
        let rect_held = hold(rect_desc());
        let rect_type = match fw.reg_held_named("Rect".to_owned(), rect_held) {
            Some(t) => t,
            None => vstd::pervasive::unreached(),
        };
        let ghost with_rect = *fw;
        let ghost s = str_type.index();
        let ghost b = bool_type.index();
        let ghost r = rect_type.index();
        proof {
            assert(with_bool.same_desc(&with_str, s));
            assert(takes_str(&with_bool, s));
            assert(with_rect.same_desc(&with_bool, s));
            assert(with_rect.same_desc(&with_bool, b));
            assert(takes_str(&with_rect, s));
            assert(takes_bool(&with_rect, b));
        }
        let visual_window = DepObjDataKey::new(fw);
        let ghost with_key = *fw;
        proof {
            lemma_takes_kept(&with_key, &with_rect, s, b, r);
            assert(!with_key.dep_named("Visual"@)) by {
                if with_key.dep_named("Visual"@) {
                    let t = choose|t: int| 0 <= t < with_key.dep_count() && #[trigger] with_key.dep_name(t)
                        == "Visual"@;
                    assert(with_key.same_type(&with_rect, t));
                    assert(with_rect.same_type(&with_bool, t));
                    assert(with_bool.same_type(&with_str, t));
                    assert(with_str.same_type(old(fw), t));
                    assert(old(fw).dep_name(t) == "Visual"@);
                }
            }
        }
        let visual_type = fw.reg_dep_type(
            "Visual".to_owned(),
            None,
            Some(Hook { id: Self::VISUAL_CTOR }),
        );
        let ghost with_visual = *fw;
        let ghost visual = visual_type.index();
        proof {
            lemma_takes_kept(&with_visual, &with_key, s, b, r);
            assert(!with_visual.prop_named(visual, "Bounds"@));
            assert(!with_visual.dep_named("Root"@)) by {
                if with_visual.dep_named("Root"@) {
                    let t = choose|t: int| 0 <= t < with_visual.dep_count() && #[trigger] with_visual.dep_name(t)
                        == "Root"@;
                    if t < with_key.dep_count() {
                        assert(with_visual.same_type(&with_key, t));
                        assert(with_key.same_type(&with_rect, t));
                        assert(with_rect.same_type(&with_bool, t));
                        assert(with_bool.same_type(&with_str, t));
                        assert(with_str.same_type(old(fw), t));
                        assert(old(fw).dep_name(t) == "Root"@);
                    }
                }
            }
        }
        let empty = Obj::Val(rect_type.box_(Rect::empty()));
        let visual_bounds_prop = fw.reg_dep_prop(
            visual_type,
            "Bounds".to_owned(),
            Type::Val(rect_type),
            empty,
            None,
        );
        let ghost with_bounds = *fw;
        proof {
            lemma_takes_kept(&with_bounds, &with_visual, s, b, r);
            assert(with_bounds.same_type(&with_visual, visual));
            assert(with_bounds.target(visual_bounds_prop) == visual);
            assert(!with_bounds.prop_named(visual, "Parent"@)) by {
                if with_bounds.prop_named(visual, "Parent"@) {
                    let p = choose|p: DepProp<I>|
                        p.owner_index() == visual && 0 <= p.number() < with_bounds.prop_count(visual)
                            && #[trigger] with_bounds.prop_name(p) == "Parent"@;
                    DepProp::lemma_index(p, visual_bounds_prop);
                }
            }
            assert(with_bounds.dep_is(visual, visual));
            let inner = Type::Dep(visual_type);
            let outer = Type::Opt(Box::new(inner));
            assert(with_bounds.has_type(inner));
            assert(with_bounds.has_type(outer));
            assert(with_bounds.type_is(inner, inner));
            assert(Obj::Nil(inner).type_of() == outer);
            assert(with_bounds.type_is(outer, outer));
        }
        let visual_parent_prop = fw.reg_dep_prop(
            visual_type,
            "Parent".to_owned(),
            Type::Opt(Box::new(Type::Dep(visual_type))),
            Obj::Nil(Type::Dep(visual_type)),
            None,
        );
        let ghost with_parent = *fw;
        proof {
            lemma_takes_kept(&with_parent, &with_bounds, s, b, r);
            assert(with_parent.same_type(&with_bounds, visual));
            assert(with_parent.target(visual_parent_prop) == visual);
            DepProp::lemma_index(visual_parent_prop, visual_bounds_prop);
            assert(with_parent.same_class(&with_bounds, visual, Some(visual_parent_prop)));
            assert(!with_parent.dep_named("Root"@)) by {
                if with_parent.dep_named("Root"@) {
                    let t = choose|t: int| 0 <= t < with_parent.dep_count() && #[trigger] with_parent.dep_name(t)
                        == "Root"@;
                    assert(with_parent.same_type(&with_bounds, t));
                    assert(with_bounds.same_type(&with_visual, t));
                    assert(with_visual.dep_name(t) == "Root"@);
                }
            }
        }
        let root_type = fw.reg_dep_type(
            "Root".to_owned(),
            Some(visual_type),
            Some(Hook { id: Self::ROOT_CTOR }),
        );
        let ghost with_root = *fw;
        let ghost root = root_type.index();
        proof {
            lemma_takes_kept(&with_root, &with_parent, s, b, r);
            assert(with_root.same_type(&with_parent, visual));
            assert(with_root.same_class(&with_parent, visual, None));
            assert(with_root.lock_of(visual, visual_parent_prop) is None);
            assert(with_root.lock_of(visual, visual_bounds_prop) is None);
            assert(with_root.lock_of(root, visual_parent_prop) is None);
            assert(with_root.lock_of(root, visual_bounds_prop) is None);
        }
        let root_parent_lock = fw.lock_class_set(root_type, visual_parent_prop);
        let ghost locked_parent = *fw;
        proof {
            lemma_takes_kept(&locked_parent, &with_root, s, b, r);
            assert(locked_parent.same_type(&with_root, visual));
            assert(locked_parent.same_type(&with_root, root));
            assert(locked_parent.same_class(&with_root, visual, None));
            assert(locked_parent.same_class(&with_root, root, Some(visual_parent_prop)));
            assert(locked_parent.lock_of(visual, visual_bounds_prop) is None);
            assert(locked_parent.lock_of(root, visual_bounds_prop) is None);
        }
        let root_bounds_lock = fw.lock_class_set(root_type, visual_bounds_prop);
        let ghost locked_bounds = *fw;
        proof {
            lemma_takes_kept(&locked_bounds, &locked_parent, s, b, r);
            assert(locked_bounds.same_type(&locked_parent, visual));
            assert(locked_bounds.same_type(&locked_parent, root));
            assert(locked_bounds.same_class(&locked_parent, visual, None));
            assert(locked_bounds.same_class(&locked_parent, root, Some(visual_bounds_prop)));
            assert(locked_bounds.dep_is(visual, visual));
        }
        fw.on_changed(visual_type, visual_bounds_prop, Hook { id: Self::BOUNDS_CHANGED });
        let ghost heard_bounds = *fw;
        proof {
            lemma_takes_kept(&heard_bounds, &locked_bounds, s, b, r);
            assert(heard_bounds.same_type(&locked_bounds, visual));
            assert(heard_bounds.same_type(&locked_bounds, root));
            assert(heard_bounds.same_class(&locked_bounds, root, None));
            assert(heard_bounds.same_class(&locked_bounds, visual, Some(visual_bounds_prop)));
            assert(heard_bounds.dep_is(visual, visual));
        }
        fw.on_changed(visual_type, visual_parent_prop, Hook { id: Self::PARENT_CHANGED });
        proof {
            lemma_takes_kept(fw, &heard_bounds, s, b, r);
            assert(fw.same_type(&heard_bounds, visual));
            assert(fw.same_type(&heard_bounds, root));
            assert(fw.same_class(&heard_bounds, root, None));
            assert(fw.same_class(&heard_bounds, visual, Some(visual_parent_prop)));
            assert(fw.class_hooks(visual, visual_bounds_prop) =~= seq![
                Hook { id: Self::BOUNDS_CHANGED },
            ]);
            assert(fw.class_hooks(visual, visual_parent_prop) =~= seq![
                Hook { id: Self::PARENT_CHANGED },
            ]);
        }
        Ntfl {
            str_type,
            bool_type,
            rect_type,
            visual_type,
            visual_bounds_prop,
            visual_parent_prop,
            root_type,
            root_bounds_lock,
            visual_window,
            host: WindowsHost::new(),
        }
    }
}

/// The rectangle that a value holds, if it is a value that holds one.
pub open spec fn rect_in<I>(val: Obj<I>) -> Option<Rect> {
    match val {
        Obj::Val(v) => match v.payload() {
            Payload::Rect(r) => Some(r),
            _ => None,
        },
        _ => None,
    }
}

/// The number of the object that an optional reference refers to, if it
/// refers to one.
pub open spec fn parent_in<I>(val: Obj<I>) -> Option<int> {
    match val {
        Obj::Has(inner) => match *inner {
            Obj::Dep(r) => Some(r.number()),
            _ => None,
        },
        _ => None,
    }
}

impl<I> Ntfl<I> {
    /// The number of the window of a visual: what the visual holds in the
    /// data slot for it, where that is a window of the host.
    pub open spec fn window_number(&self, obj: &DepObj<I>) -> Option<int> {
        match obj.slot(self.key_model()) {
            Some(Payload::Window(w)) => if w.index() < self.host_model().count() {
                Some(w.index())
            } else {
                None
            },
            _ => None,
        }
    }

    /// Whether the window `w` can hang under the window `p`: `p` is a
    /// window of the host that does not hang under `w`.
    pub open spec fn can_hang(&self, w: int, p: int) -> bool {
        p < self.host_model().count() && !self.host_model().under(w as usize, p as usize)
    }

    /// The window of a visual.
    pub fn window_of<'a>(&self, obj: &'a DepObj<I>) -> (r: Option<&'a Window>)
        ensures
            match r {
                Some(w) => self.window_number(obj) == Some(w.index()) && self.host_model().owns(w),
                None => self.window_number(obj) is None,
            },
    {
        match obj.get_data(&self.visual_window) {
            Some(Payload::Window(w)) => if w.id() < self.host.len() {
                Some(w)
            } else {
                None
            },
            _ => None,
        }
    }

    /// The value that refers to a visual, to give to the parent property of
    /// another.
    pub fn reference(&self, obj: &DepObj<I>) -> (r: Option<Obj<I>>)
        ensures
            match self.window_number(obj) {
                Some(w) => r is Some && parent_in(r->0) == Some(w) && r->0.type_of() == Type::Opt(
                    Box::new(Type::Dep(obj.type_model())),
                ),
                None => r is None,
            },
    {
        match self.window_of(obj) {
            Some(w) => {
                let inner = Obj::Dep(DepRef::new(obj.type_(), w.id()));
                assert(inner.type_of() == Type::Dep(obj.type_model()));
                Some(Obj::Has(Box::new(inner)))
            },
            None => None,
        }
    }

    /// The rectangle that a value holds.
    fn rect_of(val: &Obj<I>) -> (r: Option<Rect>)
        ensures
            r == rect_in(*val),
    {
        match val {
            Obj::Val(v) => match v.raw() {
                Payload::Rect(r) => Some(*r),
                _ => None,
            },
            _ => None,
        }
    }

    /// The number of the object that an optional reference refers to.
    fn parent_of(val: &Obj<I>) -> (r: Option<usize>)
        ensures
            match r {
                Some(n) => parent_in(*val) == Some(n as int),
                None => parent_in(*val) is None,
            },
    {
        match val {
            Obj::Has(inner) => match &**inner {
                Obj::Dep(r) => Some(r.id()),
                _ => None,
            },
            _ => None,
        }
    }

    /// The shell names the types and properties that `old` names, and uses
    /// the lock and the data slot that it uses.
    pub open spec fn kept(&self, old: &Ntfl<I>) -> bool {
        &&& self.str_model() == old.str_model()
        &&& self.bool_model() == old.bool_model()
        &&& self.rect_model() == old.rect_model()
        &&& self.visual_model() == old.visual_model()
        &&& self.root_model() == old.root_model()
        &&& self.bounds_model() == old.bounds_model()
        &&& self.parent_model() == old.parent_model()
        &&& self.lock_model() == old.lock_model()
        &&& self.key_model() == old.key_model()
    }

    /// The shell after the constructor of visuals ran on an object: the
    /// host has one more window, which hangs nowhere and has empty bounds,
    /// and the object holds it in its data slot for the window; all else
    /// is as before.
    pub open spec fn made_window(&self, old: &Ntfl<I>, obj: &DepObj<I>, before: &DepObj<I>) -> bool {
        let w = old.host_model().count() as int;
        &&& self.kept(old)
        &&& self.host_model().wf()
        &&& self.host_model().count() == w + 1
        &&& self.window_number(obj) == Some(w)
        &&& self.host_model().window(w).attach() == Attach::Unattached
        &&& self.host_model().window(w).bounds_model() is None
        &&& self.host_model().window(w).invalid_model() is None
        &&& self.host_model().window(w).grid() == Seq::<Seq<Texel>>::empty()
        &&& self.host_model().window(w).children() == Seq::<usize>::empty()
        &&& forall|i: int| 0 <= i < w ==> self.host_model().window(i) == old.host_model().window(i)
        &&& self.host_model().top() == old.host_model().top()
        &&& self.host_model().invalid_model() == old.host_model().invalid_model()
        &&& obj.same_data_but(before, old.key_model())
    }

    /// The shell after the constructor of roots ran on an object: the
    /// window of the object, if it hung nowhere, is in front of the host's
    /// top-level windows; all else is as before.
    pub open spec fn attached_root(&self, old: &Ntfl<I>, obj: &DepObj<I>) -> bool {
        &&& self.kept(old)
        &&& self.host_model().wf()
        &&& match old.window_number(obj) {
            Some(w) => if old.host_model().window(w).attach() == Attach::Unattached {
                &&& self.host_model().window(w).attach() == Attach::Host
                &&& self.host_model().top() == old.host_model().top().push(w as usize)
                &&& self.host_model().others_same(&old.host_model(), w)
                &&& self.host_model().invalid_model() == old.host_model().invalid_model()
                &&& self.host_model().same_content_but_place(&old.host_model(), w)
            } else {
                self.host_model() == old.host_model()
            },
            None => self.host_model() == old.host_model(),
        }
    }

    /// The shell after the subscriber to the bounds of visuals heard that
    /// the bounds of an object changed to `new`: the window of the object,
    /// if it hangs under the host and `new` holds a rectangle, has that
    /// rectangle as its bounds and a grid of that size, and its old and new
    /// bounds are invalid on the screen; all else is as before.
    pub open spec fn moved_bounds(&self, old: &Ntfl<I>, obj: &DepObj<I>, new: &Obj<I>) -> bool {
        &&& self.kept(old)
        &&& self.host_model().wf()
        &&& self.host_model().count() == old.host_model().count()
        &&& match (old.window_number(obj), rect_in(*new)) {
            (Some(w), Some(r)) => if old.host_model().detached(old.host_model().window(w).attach()) {
                self.host_model() == old.host_model()
            } else {
                self.host_model().rebounded(&old.host_model(), w, r@)
            },
            _ => self.host_model() == old.host_model(),
        }
    }

    /// The shell after the subscriber to the parent of visuals heard that
    /// the parent of an object changed to `new`, while the bounds of the
    /// object were `bounds`. The window of the object is taken out of the
    /// list it hung in, which makes its bounds empty, and its former bounds
    /// invalid on the screen. Where `new` refers to a visual whose window
    /// does not hang under this one, the window is then put in front of
    /// the subwindows of that window, and gets `bounds`, if any, as its
    /// bounds, which become invalid on the screen. All else is as before.
    pub open spec fn moved_parent(
        &self,
        old: &Ntfl<I>,
        obj: &DepObj<I>,
        new: &Obj<I>,
        bounds: Option<Rect>,
    ) -> bool {
        &&& self.kept(old)
        &&& self.host_model().wf()
        &&& self.host_model().count() == old.host_model().count()
        &&& match old.window_number(obj) {
            Some(w) => match parent_in(*new) {
                Some(p) => if old.can_hang(w, p) {
                    &&& exists|mid: WindowsHost|
                        #[trigger] mid.unhung(&old.host_model(), w) && self.host_model().hung(
                            &mid,
                            w,
                            p,
                            bounds,
                        )
                    &&& self.host_model().window(w).attach() == Attach::Window(p as usize)
                    &&& self.host_model().window(p).children() == (if old.host_model().window(w).attach()
                        == Attach::Window(p as usize) {
                        old.host_model().window(p).children().remove(
                            old.host_model().window(p).children().index_of(w as usize),
                        )
                    } else {
                        old.host_model().window(p).children()
                    }).push(w as usize)
                    &&& forall|i: int|
                        0 <= i < old.host_model().count() && i != w
                            ==> #[trigger] self.host_model().same_content(&old.host_model(), i)
                    &&& self.host_model().window(w).bounds_model() == match bounds {
                        Some(r) => r@,
                        None => if old.host_model().window(w).attach() == Attach::Unattached {
                            old.host_model().window(w).bounds_model()
                        } else {
                            None
                        },
                    }
                } else {
                    self.host_model().unhung(&old.host_model(), w)
                },
                None => self.host_model().unhung(&old.host_model(), w),
            },
            None => self.host_model() == old.host_model(),
        }
    }

    /// The bounds that the object has as a visual: the rectangle that its
    /// bounds property holds, if the property is for the object.
    pub open spec fn bounds_of(&self, obj: &DepObj<I>, fw: &Fw<I>) -> Option<Rect> {
        if fw.has_prop(self.bounds_model()) && fw.dep_is(
            obj.type_model().index(),
            fw.target(self.bounds_model()),
        ) {
            match obj.value_of(self.bounds_model(), fw) {
                Some(v) => rect_in(v),
                None => None,
            }
        } else {
            None
        }
    }

    /// Makes the window of a new visual, and puts it into the visual's data
    /// slot for it.
    pub fn visual_ctor(&mut self, obj: &mut DepObj<I>)
        requires
            old(self).host_model().wf(),
        ensures
            final(self).made_window(old(self), final(obj), old(obj)),
    {
        let window = self.host.new_window();
        obj.set_data(self.visual_window, window);
    }

    /// Attaches the window of a new root to the host.
    pub fn root_ctor(&mut self, obj: &DepObj<I>)
        requires
            old(self).host_model().wf(),
        ensures
            final(self).attached_root(old(self), obj),
    {
        if let Some(window) = self.window_of(obj) {
            if let Attach::Unattached = self.host.attach_of(window.id()) {
                window.attach(&mut self.host);
            }
        }
    }

    /// Gives the window of a visual the new bounds of the visual, where the
    /// window hangs under the host; the bounds of a visual that is not shown
    /// reach its window when it gets a parent.
    pub fn bounds_changed(&mut self, obj: &DepObj<I>, new: &Obj<I>)
        requires
            old(self).host_model().wf(),
        ensures
            final(self).moved_bounds(old(self), obj, new),
    {
        if let Some(window) = self.window_of(obj) {
            if let Some(rect) = Self::rect_of(new) {
                if !window.is_detached(&self.host) {
                    window.set_bounds(&mut self.host, rect);
                }
            }
        }
    }

    /// Moves the window of a visual under the window of the new parent of
    /// the visual, and gives it the bounds of the visual: the window is
    /// taken out of the list it hangs in; where the new parent is a visual
    /// whose window does not hang under this one, the window is put under
    /// it, and gets `bounds`.
    pub fn parent_changed(&mut self, obj: &DepObj<I>, new: &Obj<I>, bounds: Option<Rect>)
        requires
            old(self).host_model().wf(),
        ensures
            final(self).moved_parent(old(self), obj, new, bounds),
    {
        if let Some(window) = self.window_of(obj) {
            let ghost before = old(self).host;
            let ghost w = window.index();
            window.detach_core(&mut self.host);
            let ghost mid = self.host;
            proof {
                assert(mid.unhung(&before, w));
            }
            if let Some(parent) = Self::parent_of(new) {
                if parent < self.host.len() {
                    proof {
                        assert forall|j: int|
                            0 <= j < before.count() && j != window.index() implies (
                        #[trigger] self.host.window(j)).attach() == before.window(j).attach() by {
                            assert(self.host.same_content(&before, j));
                        }
                        self.host.lemma_under_kept(&before, window.index() as usize, parent);
                    }
                    if !self.host.under_at(window.id(), parent) {
                        let ghost p = parent as int;
                        window.attach_under(&mut self.host, parent);
                        let ghost at = self.host;
                        proof {
                            assert(at.hung_under(&mid, w, p));
                        }
                        if let Some(rect) = bounds {
                            window.set_bounds(&mut self.host, rect);
                            proof {
                                assert(self.host.rebounded(&at, w, rect@));
                            }
                        }
                        proof {
                            assert(self.host.hung(&mid, w, p, bounds));
                            assert(w != p) by {
                                before.lemma_under(w as usize, parent);
                            }
                            assert forall|i: int| 0 <= i < before.count() && i != w implies #[trigger] self.host.same_content(
                                &before,
                                i,
                            ) by {
                                if before.window(w).attach() != Attach::Unattached {
                                    assert(mid.same_content(&before, i));
                                }
                            }
                            if before.window(w).attach() != Attach::Unattached {
                                let a = before.window(w).attach();
                                if a != Attach::Window(parent) {
                                    assert(mid.list_of(Attach::Window(parent)) == before.list_of(
                                        Attach::Window(parent),
                                    ));
                                }
                            }
                        }
                    }
                }
            }
        }
    }

    /// Gives the root, whose bounds are locked, the bounds of a screen of
    /// the given size, and tells the subscribers to the bounds of roots of
    /// the change, the shell's own among them.
    pub fn set_root_bounds(&mut self, root: &mut DepObj<I>, height: isize, width: isize, fw: &Fw<I>)
        requires
            fw.wf(),
            old(self).linked(fw),
            old(self).host_model().wf(),
            old(root).type_model() == old(self).root_model(),
        ensures
            final(self).host_model().wf(),
            final(root).local(old(self).bounds_model()) matches Some(v) && (rect_in(v) matches Some(
                r,
            ) && r@ == area_tlhw(0, 0, height as int, width as int)),
            final(root).same_but(old(root), old(self).bounds_model()),
            heard(
                old(self),
                final(self),
                fw.hooks_of(old(self).root_model().index(), old(self).bounds_model()),
                final(root),
                &old(root).value_of(old(self).bounds_model(), fw)->0,
                &final(root).local(old(self).bounds_model())->0,
                fw,
            ),
            old(self).plain_root(fw) ==> final(self).moved_bounds(
                old(self),
                final(root),
                &final(root).local(old(self).bounds_model())->0,
            ),
    {
        let lock = self.root_bounds_lock;
        let prop = self.visual_bounds_prop;
        let val = Obj::Val(self.rect_type.box_(Rect::tlhw(0, 0, height, width)));
        proof {
            let r = self.root_type.index();
            let v = self.visual_type.index();
            fw.lemma_wf();
            assert(fw.has_dep(self.root_model()));
            assert(fw.base_of(r) == Some(self.visual_type));
            assert(0 <= v < r);
            assert(fw.dep_is(v, v));
            assert(fw.dep_is(r, v));
            assert(fw.target(prop) == v);
            assert(fw.lock_of(r, prop) == Some(lock));
        }
        let ghost former = root.value_of(prop, fw)->0;
        root.set_locked(prop, val, &lock, fw, self);
        proof {
            if old(self).plain_root(fw) {
                let r = old(self).root_model().index();
                let v = old(self).visual_model().index();
                let one = seq![Hook { id: Self::BOUNDS_CHANGED }];
                assert(fw.hooks_of(v, prop) == one);
                assert(fw.hooks_of(r, prop) =~= one);
                law_heard_one(
                    old(self),
                    self,
                    Hook { id: Self::BOUNDS_CHANGED },
                    root,
                    &former,
                    &val,
                    fw,
                );
            }
        }
    }

    /// Repaints the screen with the windows of the visuals.
    pub fn scr<S: Scr>(&mut self, s: &mut S) -> (r: Result<Painted, ()>)
        requires
            old(self).host_model().wf(),
        ensures
            final(self).host_model().wf(),
            final(self).key_model() == old(self).key_model(),
            match r {
                Ok(p) => final(self).host_model().composited(
                    &old(self).host_model(),
                    p.height as int,
                    p.width as int,
                ),
                Err(_) => final(self).host_model() == old(self).host_model(),
            },
            repainted(&old(self).host_model(), old(s), final(s), r),
    {
        self.host.scr(s)
    }
}

impl<I> Hooks<I> for Ntfl<I> {
    open spec fn inv(&self) -> bool {
        self.host_model().wf()
    }

    open spec fn builds(&self, after: &Self, hook: Hook, obj: &DepObj<I>, built: &DepObj<I>, fw: &Fw<I>) -> bool {
        if hook.id == Self::VISUAL_CTOR {
            after.made_window(self, built, obj)
        } else if hook.id == Self::ROOT_CTOR {
            after.attached_root(self, obj) && *built == *obj
        } else {
            *after == *self && *built == *obj
        }
    }

    fn construct(&mut self, hook: Hook, obj: &mut DepObj<I>, fw: &Fw<I>) {
        if hook.id == Self::VISUAL_CTOR {
            self.visual_ctor(obj);
        } else if hook.id == Self::ROOT_CTOR {
            self.root_ctor(obj);
        }
    }

    open spec fn hears(
        &self,
        after: &Self,
        hook: Hook,
        obj: &DepObj<I>,
        former: &Obj<I>,
        new: &Obj<I>,
        fw: &Fw<I>,
    ) -> bool {
        if hook.id == Self::BOUNDS_CHANGED {
            after.moved_bounds(self, obj, new)
        } else if hook.id == Self::PARENT_CHANGED {
            after.moved_parent(self, obj, new, self.bounds_of(obj, fw))
        } else {
            *after == *self
        }
    }

    fn changed(&mut self, hook: Hook, obj: &DepObj<I>, former: &Obj<I>, new: &Obj<I>, fw: &Fw<I>) {
        if hook.id == Self::BOUNDS_CHANGED {
            self.bounds_changed(obj, new);
        } else if hook.id == Self::PARENT_CHANGED {
            let prop = self.visual_bounds_prop;
            let bounds = if fw.knows_prop(prop) && obj.type_().is(prop.target(fw), fw) {
                Self::rect_of(obj.get(prop, fw))
            } else {
                None
            };
            self.parent_changed(obj, new, bounds);
        }
    }
}

} // verus!
