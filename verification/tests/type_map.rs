use ondemand::ast::{fresh_label, Label, LabelAllocator};
use ondemand::interpreter::render::int_to_string;
use ondemand::type_map::{Type, TypeId, TypeMap};
use ondemand::var_tracker::VarTracker;
use ondemand::ir::VarId;

#[test]
fn the_built_in_types_have_fixed_ids() {
    let types = TypeMap::new();
    assert_eq!(types.int_ty(), TypeId(0));
    assert_eq!(types.string_ty(), TypeId(1));
    assert_eq!(types.void_ty(), TypeId(2));
    assert_eq!(types.bool_ty(), TypeId(3));
    assert_eq!(types.console_ty(), TypeId(4));
    assert_eq!(types.any_ty(), TypeId(usize::MAX));
    assert_eq!(types.get(types.int_ty()), Some(Type::Int));
    assert_eq!(types.get(types.string_ty()), Some(Type::String));
    assert_eq!(types.get(types.void_ty()), Some(Type::Void));
    assert_eq!(types.get(types.bool_ty()), Some(Type::Bool));
    assert_eq!(types.get(types.console_ty()), Some(Type::Console));
}

#[test]
fn the_type_of_null_is_no_type_of_the_table() {
    let types = TypeMap::default();
    assert_eq!(types.get(types.any_ty()), None);
    assert_eq!(types.get(TypeId(5)), None);
}

#[test]
fn interning_round_trips() {
    let mut types = TypeMap::new();
    let int_ty = types.int_ty();
    let array = types.get_id(Type::Array(int_ty));
    assert_eq!(array, TypeId(5));
    let nested = types.get_id(Type::Array(array));
    assert_eq!(nested, TypeId(6));
    let class = types.get_id(Type::Class(Label(9).assert_as_class_decl()));
    assert_eq!(class, TypeId(7));
    for id in 0..8 {
        let ty = types.get(TypeId(id)).unwrap();
        assert_eq!(types.get_id(ty), TypeId(id));
    }
    assert_eq!(types.get(TypeId(8)), None);
    assert_eq!(types.get_id(Type::Int), TypeId(0));
    assert_eq!(types.get_id(Type::Console), TypeId(4));
    assert_eq!(Type::Class(Label(9).assert_as_class_decl()).class_decl(), Some(Label(9).assert_as_class_decl()));
    assert_eq!(Type::Int.class_decl(), None);
}

#[test]
fn unification_laws_on_some_ids() {
    let mut types = TypeMap::new();
    let int_ty = types.int_ty();
    let array = types.get_id(Type::Array(int_ty));
    let ids = [types.int_ty(), types.string_ty(), types.bool_ty(), array, types.any_ty()];
    for a in ids {
        assert!(types.unify(a, a));
        assert!(types.unify(types.any_ty(), a));
        for b in ids {
            assert_eq!(types.unify(a, b), types.unify(b, a));
            assert_eq!(types.unify(a, b), a == b || a == types.any_ty() || b == types.any_ty());
        }
    }
    assert!(!types.unify(types.int_ty(), types.string_ty()));
}

#[test]
fn labels_come_in_order() {
    let mut labels = LabelAllocator::new();
    assert!(!labels.is_exhausted());
    assert_eq!(fresh_label(&mut labels), Label(0));
    assert_eq!(fresh_label(&mut labels), Label(1));
    assert_eq!(fresh_label(&mut labels), Label(2));
    assert_eq!(Label(2).assert_as_var_use().as_label(), Label(2));
    assert_eq!(Label(2).assert_as_type_use().as_label(), Label(2));
    assert_eq!(Label(2).assert_as_method_use().as_label(), Label(2));
}

#[test]
fn variables_take_the_slots_in_order() {
    let mut tracker = VarTracker::default();
    tracker.var_decl(Label(10).assert_as_var_decl());
    tracker.var_decl(Label(4).assert_as_var_decl());
    assert_eq!(tracker.get_var_id(Label(10).assert_as_var_decl()), Some(VarId(0)));
    assert_eq!(tracker.get_var_id(Label(4).assert_as_var_decl()), Some(VarId(1)));
    assert_eq!(tracker.get_var_id(Label(5).assert_as_var_decl()), None);
    tracker.reset();
    assert_eq!(tracker.get_var_id(Label(10).assert_as_var_decl()), None);
    tracker.reserve_this();
    tracker.var_decl(Label(7).assert_as_var_decl());
    assert_eq!(tracker.get_var_id(Label(7).assert_as_var_decl()), Some(VarId(1)));
    assert_eq!(VarId::this(), VarId(0));
}

#[test]
fn integers_in_decimal() {
    assert_eq!(int_to_string(0), "0");
    assert_eq!(int_to_string(7), "7");
    assert_eq!(int_to_string(10), "10");
    assert_eq!(int_to_string(-1), "-1");
    assert_eq!(int_to_string(1234567890), "1234567890");
    assert_eq!(int_to_string(i64::MAX), "9223372036854775807");
    assert_eq!(int_to_string(i64::MIN), "-9223372036854775808");
}
