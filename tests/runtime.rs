use ocaml_rust::closure::{CallError, CallbackResult, Fn0, Fn1, Fn2, handle_exn};
use ocaml_rust::custom::{Custom, CustomConst};
use ocaml_rust::exn::OCamlExn;
use ocaml_rust::gc::{to_rooted_value, with_gc, Gc, RootedValue};
use ocaml_rust::glue::call_entry;
use ocaml_rust::handle::{HandleError, OpaqueHandle, SharedHandles};
use ocaml_rust::value::{NativeValue, Shape, Value};

#[test]
fn rooted_value_survives_allocations() {
    let mut gc = Gc::new();
    let shape = Shape::Tuple(vec![Shape::Int, Shape::Text]);
    let v = NativeValue::Tuple(vec![NativeValue::Int(3), NativeValue::Text("kept".to_string())]);
    let root = to_rooted_value(&mut gc, &shape, &v);
    let expected = ocaml_rust::codec::encode(&shape, &v);
    assert_eq!(root.value(&gc), &expected);
    for i in 0..10 {
        let _unrooted = gc.allocate(Value::Imm(i));
        let other = RootedValue::create(&mut gc, Value::Bytes(vec![i as u8]));
        gc.collect();
        assert_eq!(root.value(&gc), &expected);
        other.release(&mut gc);
    }
    assert_eq!(ocaml_rust::codec::decode(&shape, root.value(&gc)), Ok(v));
}

#[test]
fn collection_moves_blocks() {
    let mut gc = Gc::new();
    let _garbage = gc.allocate(Value::Imm(1));
    let a = RootedValue::create(&mut gc, Value::Imm(2));
    let b = RootedValue::create(&mut gc, Value::Imm(3));
    a.release(&mut gc);
    let addr = gc.allocate(Value::Imm(4));
    assert_eq!(addr, 1);
    assert_eq!(b.value(&gc), &Value::Imm(3));
}

#[test]
fn with_gc_runs_on_a_fresh_heap() {
    let n = with_gc(|gc: &mut Gc| {
        let r = RootedValue::create(gc, Value::Imm(41));
        match r.value(gc) {
            Value::Imm(x) => *x + 1,
            _ => 0,
        }
    });
    assert_eq!(n, 42);
}

#[test]
fn shared_handle_lifecycle() {
    let mut handles: SharedHandles<String> = SharedHandles::new();
    let id = handles.share("state".to_string());
    for _ in 0..3 {
        assert_eq!(handles.clone_handle(id), Ok(()));
    }
    for _ in 0..3 {
        assert_eq!(handles.drop_handle(id), Ok(None));
        assert_eq!(handles.get(id), Ok(&"state".to_string()));
    }
    assert_eq!(handles.drop_handle(id), Ok(Some("state".to_string())));
    assert_eq!(handles.get(id), Err(HandleError::AlreadyClosed));
    assert_eq!(handles.drop_handle(id), Err(HandleError::AlreadyClosed));
    assert_eq!(handles.clone_handle(id), Err(HandleError::AlreadyClosed));
}

#[test]
fn closed_handle_refuses_access() {
    let mut h = OpaqueHandle::new(vec![1i64, 2]);
    assert_eq!(h.get(), Ok(&vec![1i64, 2]));
    assert_eq!(h.close(), Ok(vec![1i64, 2]));
    assert!(h.is_closed());
    assert_eq!(h.get(), Err(HandleError::AlreadyClosed));
    assert_eq!(h.get(), Err(HandleError::AlreadyClosed));
    assert_eq!(h.close(), Err(HandleError::AlreadyClosed));
}

#[test]
fn custom_counter_push_pop_len() {
    let c: Custom<Vec<i64>> = Custom::new(Vec::new());
    c.inner().lock().unwrap().push(1);
    c.inner().lock().unwrap().push(2);
    let popped = c.inner().lock().unwrap().pop();
    assert_eq!(popped, Some(2));
    assert_eq!(c.inner().lock().unwrap().len(), 1);
    let k = CustomConst::new(5u8);
    assert_eq!(*k.inner(), 5);
}

#[test]
fn exception_text() {
    let e = OCamlExn { message: "Not_found".to_string() };
    assert_eq!(e.to_string(), "ocaml exn: Not_found");
}

#[test]
fn handle_exn_decodes_or_reports() {
    match handle_exn(CallbackResult::Raised("Failure(\"x\")".to_string()), &Shape::Int) {
        Err(CallError::Exception(e)) => assert_eq!(e.message, "Failure(\"x\")"),
        other => panic!("unexpected {:?}", other),
    }
    match handle_exn(CallbackResult::Returned(Value::Imm(5)), &Shape::Int) {
        Ok(v) => assert_eq!(v, NativeValue::Int(5)),
        other => panic!("unexpected {:?}", other),
    }
    assert!(matches!(
        handle_exn(CallbackResult::Returned(Value::Imm(5)), &Shape::Text),
        Err(CallError::Mismatch(_))
    ));
}

#[test]
fn raising_callback_gives_an_error_value() {
    let mut gc = Gc::new();
    let mut f = Fn1::new(&mut gc, Value::Imm(99), Shape::Int, Shape::Text);
    let r = f.call1(&gc, NativeValue::Int(1), |closure: &Value, args: Vec<Value>| {
        assert_eq!(closure, &Value::Imm(99));
        assert_eq!(args, vec![Value::Imm(1)]);
        CallbackResult::Raised("Failure(\"boom\")".to_string())
    });
    match r {
        Err(CallError::Exception(e)) => assert!(e.message.contains("boom")),
        other => panic!("unexpected {:?}", other),
    }
}

#[test]
fn callbacks_pass_encoded_arguments() {
    let mut gc = Gc::new();
    let mut f0 = Fn0::new(&mut gc, Value::Imm(7), Shape::Int);
    let r0 = f0.call0(&gc, |_c: &Value, args: Vec<Value>| {
        assert_eq!(args, vec![Value::Imm(0)]);
        CallbackResult::Returned(Value::Imm(10))
    });
    assert_eq!(r0.unwrap(), NativeValue::Int(10));
    let mut f2 = Fn2::new(&mut gc, Value::Imm(8), Shape::Int, Shape::Text, Shape::Text);
    let r2 = f2.call2(&gc, NativeValue::Int(2), NativeValue::Text("a".to_string()), |_c: &Value, args: Vec<Value>| {
        assert_eq!(args, vec![Value::Imm(2), Value::Bytes(vec![b'a'])]);
        CallbackResult::Returned(Value::Bytes(b"aa".to_vec()))
    });
    assert_eq!(r2.unwrap(), NativeValue::Text("aa".to_string()));
}

fn add_one(args: Vec<NativeValue>) -> NativeValue {
    match &args[0] {
        NativeValue::Int(x) => NativeValue::Int(x + 1),
        _ => NativeValue::Int(0),
    }
}

#[test]
fn entry_point_add_one() {
    let r = call_entry(&vec![Shape::Int], &Shape::Int, &vec![Value::Imm(41)], add_one);
    assert_eq!(r, Ok(Value::Imm(42)));
}

fn option_result(args: Vec<NativeValue>) -> NativeValue {
    let mut args = args;
    let e = args.pop().unwrap();
    match args.pop().unwrap() {
        NativeValue::Present(v) => NativeValue::Success(v),
        NativeValue::Absent => NativeValue::Failure(Box::new(e)),
        _ => NativeValue::Unit,
    }
}

#[test]
fn entry_point_outcome_error_branch() {
    let params = vec![Shape::Option(Box::new(Shape::Int)), Shape::Text];
    let ret = Shape::Result(Box::new(Shape::Int), Box::new(Shape::Text));
    let args = vec![Value::Imm(0), Value::Bytes(b"missing".to_vec())];
    let out = call_entry(&params, &ret, &args, option_result).unwrap();
    assert_eq!(out, Value::Block(1, vec![Value::Bytes(b"missing".to_vec())]));
    assert_eq!(
        ocaml_rust::codec::decode(&ret, &out),
        Ok(NativeValue::Failure(Box::new(NativeValue::Text("missing".to_string()))))
    );
    let ok = call_entry(&params, &ret, &vec![Value::Block(0, vec![Value::Imm(3)]), Value::Bytes(vec![])], option_result);
    assert_eq!(ok, Ok(Value::Block(0, vec![Value::Imm(3)])));
}

#[test]
fn entry_point_refuses_a_mismatched_argument() {
    let r = call_entry(&vec![Shape::Int], &Shape::Int, &vec![Value::Bytes(vec![])], add_one);
    assert!(r.is_err());
}

#[test]
fn cloning_a_live_handle_counts_up() {
    let mut handles: SharedHandles<u8> = SharedHandles::new();
    let a = handles.share(1);
    let b = handles.share(2);
    assert_eq!(handles.clone_handle(a), Ok(()));
    assert_eq!(handles.drop_handle(a), Ok(None));
    assert_eq!(handles.drop_handle(a), Ok(Some(1)));
    assert_eq!(handles.get(b), Ok(&2));
}
