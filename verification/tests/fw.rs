use std::cmp::Ordering;
use ntfl::fw::{
    hold, ClassSetLock, DepObj, DepObjDataKey, DepRef, Fw, Hook, Hooks, NoHooks, Obj, Payload,
    Type, Unique, Val, ValType, ValTypeDesc,
};

struct StrValTypeDesc {}

impl<I> ValTypeDesc<I> for StrValTypeDesc {
    fn name_model(&self) -> &str {
        &"str"
    }

    fn accepts(&self, _s: &str) -> bool {
        true
    }

    fn reads(&self, s: &str, p: &Payload) -> bool {
        *p == Payload::Str(String::from(s))
    }

    fn writes(&self, p: &Payload, text: &String) -> bool {
        *p == Payload::Str(text.clone())
    }

    fn name(&self) -> &str {
        &"str"
    }

    fn parse(&self, type_: ValType<I>, s: &str) -> Option<Val<I>> {
        Some(type_.box_(String::from(s)))
    }

    fn to_string(&self, val: &Val<I>) -> String {
        val.unbox::<String>().clone()
    }
}

pub struct TestFw(());

fn str_of(obj: &Obj<TestFw>) -> &str {
    obj.unbox::<String>()
}

fn str_obj(str_type: ValType<TestFw>, s: &str) -> Obj<TestFw> {
    Obj::Val(str_type.box_(String::from(s)))
}

#[test]
fn reg_val_type_test() {
    let mut fw = Fw::new(TestFw(()));
    let str_type = fw.reg_val_type(Box::new(StrValTypeDesc {})).unwrap();
    assert_eq!("123", str_type.parse(&"123", &fw).unwrap().unbox::<String>());
    assert_eq!("123", str_type.box_(String::from("123")).to_string(&fw));
    assert_eq!("str", str_type.name(&fw));
}

#[test]
fn reg_dep_type_prop_get_set_test() {
    let mut fw = Fw::new(TestFw(()));
    let str_type = fw.reg_val_type(Box::new(StrValTypeDesc {})).unwrap();
    let obj_type = fw.reg_dep_type(String::from("obj"), None, None);
    let name_prop = fw.reg_dep_prop(obj_type, String::from("name"), Type::Val(str_type), Obj::Val(str_type.box_(String::from("x"))), None);
    assert_eq!("name", name_prop.name(&fw));
    let mut obj = obj_type.create(&fw, &mut NoHooks);
    assert_eq!("x", obj.get(name_prop, &fw).unbox::<String>());
    obj.set(name_prop, Obj::Val(str_type.box_(String::from("local value"))), &fw, &mut NoHooks).unwrap();
    assert_eq!("local value", obj.get(name_prop, &fw).unbox::<String>());
    obj.reset(name_prop, &fw).unwrap();
    assert_eq!("x", obj.get(name_prop, &fw).unbox::<String>());
    obj.reset(name_prop, &fw).unwrap();
    assert_eq!("x", obj.get(name_prop, &fw).unbox::<String>());
    let lock = fw.lock_class_set(obj_type, name_prop);
    assert_eq!(Err(()), obj.reset(name_prop, &fw));
    obj.reset_locked(name_prop, &lock, &fw).unwrap();
}

#[test]
fn is_base() {
    let mut fw = Fw::new(TestFw(()));
    let base_type = fw.reg_dep_type(String::from("base"), None, None);
    let obj_type = fw.reg_dep_type(String::from("obj"), Some(base_type), None);
    assert!(obj_type.is(base_type, &fw));
    assert!(obj_type.is(obj_type, &fw));
    assert!(base_type.is(base_type, &fw));
    assert!(!base_type.is(obj_type, &fw));
}

#[test]
fn lock_set() {
    let mut fw = Fw::new(TestFw(()));
    let str_type = fw.reg_val_type(Box::new(StrValTypeDesc {})).unwrap();
    let base_type = fw.reg_dep_type(String::from("base"), None, None);
    let obj_type = fw.reg_dep_type(String::from("obj"), Some(base_type), None);
    let prop = fw.reg_dep_prop(base_type, String::from("Prop"), Type::Val(str_type), Obj::Val(str_type.box_(String::from(""))), None);
    let mut obj = obj_type.create(&fw, &mut NoHooks);
    assert_eq!("", obj.get(prop, &fw).unbox::<String>());
    obj.set(prop, Obj::Val(str_type.box_(String::from("123"))), &fw, &mut NoHooks).unwrap();
    assert_eq!("123", obj.get(prop, &fw).unbox::<String>());
    let lock = fw.lock_class_set(base_type, prop);
    assert_eq!(Err(()), obj.set(prop, Obj::Val(str_type.box_(String::from("123"))), &fw, &mut NoHooks));
    assert_eq!(Err(()), obj.set(prop, Obj::Val(str_type.box_(String::from("234"))), &fw, &mut NoHooks));
    assert_eq!("123", obj.get(prop, &fw).unbox::<String>());
    obj.set_locked(prop, Obj::Val(str_type.box_(String::from("234"))), &lock, &fw, &mut NoHooks);
    assert_eq!("234", obj.get(prop, &fw).unbox::<String>());
}

#[test]
fn held_description_is_registered() {
    let mut fw = Fw::new(TestFw(()));
    let boxed: Box<dyn ValTypeDesc<TestFw>> = Box::new(StrValTypeDesc {});
    let held = hold(boxed);
    let str_type = fw.reg_held(held).unwrap();
    assert!(fw.val_type("str") == Some(str_type));
    assert_eq!("123", str_type.parse(&"123", &fw).unwrap().unbox::<String>());
    assert_eq!("123", str_type.box_(String::from("123")).to_string(&fw));
    let again: Box<dyn ValTypeDesc<TestFw>> = Box::new(StrValTypeDesc {});
    assert!(fw.reg_held(hold(again)).is_none());
    let other: Box<dyn ValTypeDesc<TestFw>> = Box::new(StrValTypeDesc {});
    let other_type = fw.reg_held_named(String::from("other"), hold(other)).unwrap();
    assert!(other_type != str_type);
    assert_eq!("other", other_type.name(&fw));
    assert_eq!("x", other_type.parse(&"x", &fw).unwrap().unbox::<String>());
}

#[test]
fn new_property_is_locked_for_no_type() {
    let mut fw = Fw::new(TestFw(()));
    let str_type = fw.reg_val_type(Box::new(StrValTypeDesc {})).unwrap();
    let base_type = fw.reg_dep_type(String::from("base"), None, None);
    let obj_type = fw.reg_dep_type(String::from("obj"), Some(base_type), None);
    let other_type = fw.reg_dep_type(String::from("other"), None, None);
    let prop = fw.reg_dep_prop(base_type, String::from("Prop"), Type::Val(str_type), str_obj(str_type, ""), None);
    assert!(!base_type.is_locked(prop, &fw));
    assert!(!obj_type.is_locked(prop, &fw));
    assert!(obj_type.subscribers(prop, &fw).is_empty());
    assert!(fw.dep_prop(base_type, "Prop") == Some(prop));
    assert!(fw.dep_prop(other_type, "Prop").is_none());
    let mut obj = obj_type.create(&fw, &mut NoHooks);
    assert_eq!(Ok(()), obj.set(prop, str_obj(str_type, "123"), &fw, &mut NoHooks));
    assert_eq!("123", obj.get(prop, &fw).unbox::<String>());
}

#[test]
fn depobj_data() {
    let mut fw = Fw::new(TestFw(()));
    let obj_type = fw.reg_dep_type(String::from("obj"), None, None);
    let mut obj = obj_type.create(&fw, &mut NoHooks);
    let key = DepObjDataKey::new(&mut fw);
    assert!(obj.get_data(&key).is_none());
    obj.set_data(key.clone(), 13 as i32);
    assert_eq!(13 as i32, *obj.get_data(&key).unwrap().downcast_ref::<i32>().unwrap());
    assert_eq!(&Payload::Int(13), obj.get_data(&key).unwrap());
    assert!(obj.get_data(&key).unwrap().downcast_ref::<String>().is_none());
}

struct CtorHooks {
    base_value: DepObjDataKey,
    calls: Vec<usize>,
}

impl Hooks<TestFw> for CtorHooks {
    fn inv(&self) -> bool {
        true
    }

    fn builds(
        &self,
        _after: &Self,
        _hook: Hook,
        _obj: &DepObj<TestFw>,
        _built: &DepObj<TestFw>,
        _fw: &Fw<TestFw>,
    ) -> bool {
        true
    }

    fn hears(
        &self,
        _after: &Self,
        _hook: Hook,
        _obj: &DepObj<TestFw>,
        _former: &Obj<TestFw>,
        _new: &Obj<TestFw>,
        _fw: &Fw<TestFw>,
    ) -> bool {
        true
    }

    fn construct(&mut self, hook: Hook, obj: &mut DepObj<TestFw>, _fw: &Fw<TestFw>) {
        self.calls.push(hook.id);
        match hook.id {
            1 => {
                obj.set_data(self.base_value.clone(), 18 as i32);
            }
            2 => {
                let base = *obj.get_data(&self.base_value).unwrap().downcast_ref::<i32>().unwrap();
                obj.set_data(self.base_value.clone(), base + 1);
            }
            _ => panic!("unknown constructor"),
        }
    }

    fn changed(&mut self, _hook: Hook, _obj: &DepObj<TestFw>, _former: &Obj<TestFw>, _new: &Obj<TestFw>, _fw: &Fw<TestFw>) {
    }
}

#[test]
fn ctor_test() {
    let mut fw = Fw::new(TestFw(()));
    let base_value = DepObjDataKey::new(&mut fw);
    let base_type = fw.reg_dep_type(String::from("base"), None, Some(Hook { id: 1 }));
    let obj_type = fw.reg_dep_type(String::from("obj"), Some(base_type), Some(Hook { id: 2 }));
    let mut hooks = CtorHooks { base_value: base_value.clone(), calls: Vec::new() };
    let obj = obj_type.create(&fw, &mut hooks);
    let value = *obj.get_data(&base_value).unwrap().downcast_ref::<i32>().unwrap();
    assert_eq!(19 as i32, value);
    assert_eq!(vec![1, 2], hooks.calls);
    assert_eq!(vec![Hook { id: 1 }, Hook { id: 2 }], obj_type.init(&fw));
}

struct Recorder {
    seen: Vec<(usize, String, String, String)>,
    prop: ntfl::fw::DepProp<TestFw>,
}

impl Hooks<TestFw> for Recorder {
    fn inv(&self) -> bool {
        true
    }

    fn builds(
        &self,
        _after: &Self,
        _hook: Hook,
        _obj: &DepObj<TestFw>,
        _built: &DepObj<TestFw>,
        _fw: &Fw<TestFw>,
    ) -> bool {
        true
    }

    fn hears(
        &self,
        _after: &Self,
        _hook: Hook,
        _obj: &DepObj<TestFw>,
        _former: &Obj<TestFw>,
        _new: &Obj<TestFw>,
        _fw: &Fw<TestFw>,
    ) -> bool {
        true
    }

    fn construct(&mut self, _hook: Hook, _obj: &mut DepObj<TestFw>, _fw: &Fw<TestFw>) {
    }

    fn changed(&mut self, hook: Hook, obj: &DepObj<TestFw>, former: &Obj<TestFw>, new: &Obj<TestFw>, fw: &Fw<TestFw>) {
        self.seen.push((
            hook.id,
            String::from(str_of(former)),
            String::from(str_of(new)),
            String::from(str_of(obj.get(self.prop, fw))),
        ));
    }
}

#[test]
fn subscribers_hear_of_changes_base_first() {
    let mut fw = Fw::new(TestFw(()));
    let str_type = fw.reg_val_type(Box::new(StrValTypeDesc {})).unwrap();
    let base_type = fw.reg_dep_type(String::from("base"), None, None);
    let obj_type = fw.reg_dep_type(String::from("obj"), Some(base_type), None);
    let other_type = fw.reg_dep_type(String::from("other"), Some(base_type), None);
    let prop = fw.reg_dep_prop(base_type, String::from("Prop"), Type::Val(str_type), str_obj(str_type, "d"), None);
    fw.on_changed(obj_type, prop, Hook { id: 7 });
    fw.on_changed(base_type, prop, Hook { id: 3 });
    fw.on_changed(obj_type, prop, Hook { id: 8 });
    fw.on_changed(other_type, prop, Hook { id: 9 });
    fw.on_changed(base_type, prop, Hook { id: 4 });
    assert_eq!(
        vec![Hook { id: 3 }, Hook { id: 4 }, Hook { id: 7 }, Hook { id: 8 }],
        obj_type.subscribers(prop, &fw)
    );
    let mut hooks = Recorder { seen: Vec::new(), prop };
    let mut obj = obj_type.create(&fw, &mut hooks);
    obj.set(prop, str_obj(str_type, "a"), &fw, &mut hooks).unwrap();
    obj.set(prop, str_obj(str_type, "b"), &fw, &mut hooks).unwrap();
    let row = |id: usize, former: &str, new: &str| (id, String::from(former), String::from(new), String::from(new));
    assert_eq!(
        vec![
            row(3, "d", "a"), row(4, "d", "a"), row(7, "d", "a"), row(8, "d", "a"),
            row(3, "a", "b"), row(4, "a", "b"), row(7, "a", "b"), row(8, "a", "b"),
        ],
        hooks.seen
    );
    obj.reset(prop, &fw).unwrap();
    assert_eq!(8, hooks.seen.len());
}

#[test]
fn default_is_inherited_and_overridden() {
    let mut fw = Fw::new(TestFw(()));
    let str_type = fw.reg_val_type(Box::new(StrValTypeDesc {})).unwrap();
    let c = fw.reg_dep_type(String::from("C"), None, None);
    let b = fw.reg_dep_type(String::from("B"), Some(c), None);
    let a = fw.reg_dep_type(String::from("A"), Some(b), None);
    let p = fw.reg_dep_prop(c, String::from("P"), Type::Val(str_type), str_obj(str_type, "of C"), None);
    assert_eq!("of C", str_of(a.create(&fw, &mut NoHooks).get(p, &fw)));
    assert_eq!("of C", str_of(a.def_val(p, &fw)));
    fw.override_def_val(b, p, str_obj(str_type, "of B"));
    assert_eq!("of B", str_of(a.create(&fw, &mut NoHooks).get(p, &fw)));
    assert_eq!("of B", str_of(b.create(&fw, &mut NoHooks).get(p, &fw)));
    assert_eq!("of C", str_of(c.create(&fw, &mut NoHooks).get(p, &fw)));
    assert!(a.create(&fw, &mut NoHooks).get_non_def(p, &fw).is_none());
}

#[test]
fn lock_is_inherited_and_tokens_differ() {
    let mut fw = Fw::new(TestFw(()));
    let str_type = fw.reg_val_type(Box::new(StrValTypeDesc {})).unwrap();
    let base = fw.reg_dep_type(String::from("base"), None, None);
    let derived = fw.reg_dep_type(String::from("derived"), Some(base), None);
    let p = fw.reg_dep_prop(base, String::from("P"), Type::Val(str_type), str_obj(str_type, ""), None);
    let q = fw.reg_dep_prop(base, String::from("Q"), Type::Val(str_type), str_obj(str_type, ""), None);
    assert!(!derived.is_locked(p, &fw));
    let lock_p = fw.lock_class_set(derived, p);
    let lock_q = fw.lock_class_set(base, q);
    assert!(lock_p != lock_q);
    assert!(derived.is_locked(p, &fw) && !base.is_locked(p, &fw));
    assert!(derived.is_locked(q, &fw) && base.is_locked(q, &fw));
    assert_eq!(Some(lock_q.clone()), derived.set_lock(q, &fw));
    let mut of_base = base.create(&fw, &mut NoHooks);
    let mut of_derived = derived.create(&fw, &mut NoHooks);
    assert_eq!(Ok(()), of_base.set(p, str_obj(str_type, "1"), &fw, &mut NoHooks));
    assert_eq!(Err(()), of_derived.set(p, str_obj(str_type, "1"), &fw, &mut NoHooks));
    assert_eq!(Ok(None), of_derived.set_core(p, str_obj(str_type, "2"), Some(&lock_p), &fw).map(|former| former.map(|_| ())));
    assert_eq!(Err(()), of_derived.set_core(p, str_obj(str_type, "3"), Some(&lock_q), &fw).map(|_| ()));
    assert_eq!("2", str_of(of_derived.get(p, &fw)));
    assert_eq!(Err(()), of_derived.reset_locked(p, &lock_q, &fw));
    assert_eq!(Ok(()), of_derived.reset_locked(p, &lock_p, &fw));
    assert_eq!(Err(()), of_derived.check_set(q, None, &fw));
    assert_eq!(Ok(()), of_derived.check_set(q, Some(&lock_q), &fw));
}

#[test]
fn types_of_values() {
    let mut fw = Fw::new(TestFw(()));
    let str_type = fw.reg_val_type(Box::new(StrValTypeDesc {})).unwrap();
    let base = fw.reg_dep_type(String::from("base"), None, None);
    let derived = fw.reg_dep_type(String::from("derived"), Some(base), None);
    let other = fw.reg_dep_type(String::from("other"), None, None);
    let of = |t| Type::Opt(Box::new(t));
    assert!(Type::Val(str_type).is(&Type::Val(str_type), &fw));
    assert!(!Type::Val(str_type).is(&Type::Dep(base), &fw));
    assert!(Type::Dep(derived).is(&Type::Dep(base), &fw));
    assert!(!Type::Dep(base).is(&Type::Dep(derived), &fw));
    assert!(!Type::Dep(other).is(&Type::Dep(base), &fw) && !Type::Dep(base).is(&Type::Dep(other), &fw));
    assert!(of(Type::Dep(derived)).is(&of(Type::Dep(base)), &fw));
    assert!(!of(Type::Dep(base)).is(&of(Type::Dep(derived)), &fw));
    assert!(!of(Type::Dep(derived)).is(&Type::Dep(base), &fw));
    let reference = Obj::Dep(DepRef::new(derived, 5));
    assert!(reference.is(&Type::Dep(base), &fw));
    assert!(Obj::Has(Box::new(reference)).is(&of(Type::Dep(base)), &fw));
    assert!(Obj::<TestFw>::Nil(Type::Dep(derived)).is(&of(Type::Dep(base)), &fw));
    assert!(!Obj::<TestFw>::Nil(Type::Dep(base)).is(&of(Type::Dep(derived)), &fw));
    assert!(str_obj(str_type, "s").is(&Type::Val(str_type), &fw));
    assert!(derived.base(&fw) == Some(base) && base.base(&fw).is_none());
    assert_eq!("derived", derived.name(&fw));
}

#[test]
fn names_are_registered_once() {
    let mut fw = Fw::new(TestFw(()));
    let str_type = fw.reg_val_type(Box::new(StrValTypeDesc {})).unwrap();
    assert!(fw.reg_val_type(Box::new(StrValTypeDesc {})).is_none());
    assert!(fw.reg_val_type_named(String::from("text"), Box::new(StrValTypeDesc {})).is_some());
    assert!(fw.val_type("str") == Some(str_type));
    assert!(fw.val_type("nope").is_none());
    let t = fw.reg_dep_type(String::from("t"), None, None);
    assert!(fw.dep_type("t") == Some(t) && fw.dep_type("u").is_none());
    let p = fw.reg_dep_prop(t, String::from("p"), Type::Val(str_type), str_obj(str_type, ""), None);
    assert!(fw.dep_prop(t, "p") == Some(p) && fw.dep_prop(t, "q").is_none());
    assert!(p.owner() == t && p.target(&fw) == t && p.attached(&fw).is_none());
    let u = fw.reg_dep_type(String::from("u"), Some(t), None);
    let attached = fw.reg_dep_prop(t, String::from("q"), Type::Val(str_type), str_obj(str_type, "att"), Some(u));
    assert!(attached.target(&fw) == u && attached.attached(&fw) == Some(u));
    assert_eq!("att", str_of(u.def_val(attached, &fw)));
    let first = Unique::new(&mut fw);
    let second = Unique::new(&mut fw);
    assert!(first != second && first == first.clone());
    let unused: Option<ClassSetLock> = None;
    assert!(unused.is_none());
}

#[test]
fn data_slots_hold_what_was_put() {
    let mut fw = Fw::new(TestFw(()));
    let t = fw.reg_dep_type(String::from("t"), None, None);
    let mut obj = t.create(&fw, &mut NoHooks);
    let k1 = DepObjDataKey::new(&mut fw);
    let k2 = DepObjDataKey::new(&mut fw);
    obj.set_data(k1.clone(), true);
    obj.set_data(k2.clone(), String::from("two"));
    obj.set_data(k1.clone(), 1 as i32);
    assert_eq!(Some(&Payload::Int(1)), obj.get_data(&k1));
    assert_eq!(Some(&Payload::Str(String::from("two"))), obj.get_data(&k2));
    obj.reset_data(&k1);
    obj.reset_data(&k1);
    assert_eq!(None, obj.get_data(&k1));
    assert_eq!(Some(&Payload::Str(String::from("two"))), obj.get_data(&k2));
    assert!(obj.type_() == t && obj.is(t, &fw));
}

#[test]
fn types_and_values_are_compared_and_copied() {
    let mut fw = Fw::new(TestFw(()));
    let str_type = fw.reg_val_type(Box::new(StrValTypeDesc {})).unwrap();
    let other_type = fw.reg_val_type_named(String::from("other"), Box::new(StrValTypeDesc {})).unwrap();
    let a = fw.reg_dep_type(String::from("a"), None, None);
    let b = fw.reg_dep_type(String::from("b"), Some(a), None);
    let of = |t| Type::Opt(Box::new(t));
    assert!(Type::Val(str_type) == Type::Val(str_type));
    assert!(Type::Val(str_type) != Type::Val(other_type));
    assert!(Type::<TestFw>::Dep(a) != Type::Dep(b));
    assert!(of(Type::<TestFw>::Dep(a)) == of(Type::Dep(a)));
    assert!(of(Type::<TestFw>::Dep(a)) != Type::Dep(a));
    assert!(of(of(Type::Val(str_type))) != of(Type::Val(str_type)));
    assert!(of(Type::Val(str_type)).clone() == of(Type::Val(str_type)));
    assert_eq!(Ordering::Less, Type::Val(other_type).cmp(&Type::Dep(a)));
    assert_eq!(Ordering::Less, Type::Val(str_type).cmp(&Type::Val(other_type)));
    assert_eq!(Ordering::Greater, Type::<TestFw>::Dep(b).cmp(&Type::Dep(a)));
    assert_eq!(Ordering::Less, Type::<TestFw>::Dep(b).cmp(&of(Type::Dep(a))));
    assert_eq!(Ordering::Greater, of(Type::<TestFw>::Dep(a)).cmp(&Type::Dep(b)));
    assert_eq!(Ordering::Greater, of(Type::<TestFw>::Dep(b)).cmp(&of(Type::Dep(a))));
    assert_eq!(Ordering::Equal, of(Type::<TestFw>::Dep(b)).cmp(&of(Type::Dep(b))));
    assert_eq!(Ordering::Less, a.cmp(&b));
    assert_eq!(Ordering::Equal, str_type.cmp(&str_type));
    let p = fw.reg_dep_prop(a, String::from("p"), Type::Val(str_type), str_obj(str_type, "1"), None);
    let q = fw.reg_dep_prop(a, String::from("q"), Type::Val(str_type), str_obj(str_type, "2"), None);
    let r = fw.reg_dep_prop(b, String::from("r"), Type::Val(str_type), str_obj(str_type, "3"), Some(a));
    assert_eq!(Ordering::Less, p.cmp(&q));
    assert_eq!(Ordering::Less, q.cmp(&r));
    assert_eq!(Ordering::Greater, r.cmp(&p));
    assert_eq!(Ordering::Equal, q.cmp(&q));
    assert_eq!((0, 1, 0), (p.place(), q.place(), r.place()));
    assert_eq!((0, 1), (a.number(), b.number()));
    let value = Obj::Has(Box::new(str_obj(str_type, "copied")));
    let copy = value.clone();
    match (&value, &copy) {
        (Obj::Has(x), Obj::Has(y)) => {
            assert_eq!("copied", x.unbox::<String>());
            assert_eq!("copied", y.unbox::<String>());
        }
        _ => panic!("not a copy"),
    }
    assert!(copy.type_() == of(Type::Val(str_type)));
    assert_eq!(Payload::Str(String::from("s")), Payload::Str(String::from("s")).clone());
}
