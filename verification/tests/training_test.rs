use faber_package::device::mir::{
    function_has_shape_construction, Block, Callee, CollectionOp, Constant, Function, Intrinsic, Operand, Place, PlaceBase, Program,
    Projection, Statement, Terminator, Value,
};
use faber_package::device::schema::{CompanionRelation, DerivativeKind, SelectedInput};
use faber_package::device::training::{
    admit_step_count, build_tuple_trace, source_loop_bound, statement_defining_reads, training_plan_facts, tuple_return_locals,
    GradientLink, StepCountError, TrainableParam, TrainingError, DEFAULT_TRAINING_STEPS,
};

fn local(l: u32) -> Operand {
    Operand::Place(Place { base: PlaceBase::Local(l), projections: Vec::new() })
}

fn plain_local(l: u32) -> Place {
    Place { base: PlaceBase::Local(l), projections: Vec::new() }
}

fn temp_place(t: u32) -> Place {
    Place { base: PlaceBase::Temp(t), projections: Vec::new() }
}

fn element(t: u32, i: i64) -> Value {
    Value::Operand(Operand::Place(Place { base: PlaceBase::Temp(t), projections: vec![Projection::ConstIndex(i)] }))
}

/// The entry loop: `steps = 3; while i < steps { g = backward(w, x).0; w = step(w, g).0 }`.
fn entry(step_source: u32) -> Function {
    Function {
        id: 0,
        source: None,
        compute: false,
        tuple_return: false,
        params: Vec::new(),
        blocks: vec![
            Block {
                statements: vec![Statement::Assign { place: plain_local(1), value: Value::Operand(Operand::Constant(Constant::Int(3))) }],
                terminator: Terminator::Other,
            },
            Block {
                statements: vec![Statement::Assign { place: temp_place(9), value: Value::Binary(local(2), local(1)) }],
                terminator: Terminator::Branch(Operand::Temp(9)),
            },
            Block {
                statements: vec![
                    Statement::Call { destination: Some(temp_place(20)), callee: Callee::Definition(50), args: vec![local(10), local(11)] },
                    Statement::Assign { place: plain_local(12), value: element(20, 0) },
                    Statement::Call {
                        destination: Some(temp_place(21)),
                        callee: Callee::Definition(step_source),
                        args: vec![local(10), local(12)],
                    },
                    Statement::Assign { place: plain_local(10), value: element(21, 0) },
                ],
                terminator: Terminator::Other,
            },
        ],
    }
}

/// `step(w, g) = (w - g,)`, the update computed through one temp.
fn step(reads_param: bool) -> Function {
    let lhs = if reads_param { local(100) } else { local(101) };
    Function {
        id: 1,
        source: Some(60),
        compute: false,
        tuple_return: true,
        params: vec![100, 101],
        blocks: vec![Block {
            statements: vec![
                Statement::Assign { place: temp_place(5), value: Value::Binary(lhs, local(101)) },
                Statement::Assign { place: plain_local(102), value: Value::Operand(Operand::Temp(5)) },
                Statement::Construct { place: temp_place(7), fields: vec![local(102)] },
            ],
            terminator: Terminator::Return(Some(Operand::Temp(7))),
        }],
    }
}

fn companions() -> Vec<CompanionRelation> {
    vec![CompanionRelation {
        primal: 40,
        companion: 50,
        derivative: DerivativeKind::ReverseModeVjp,
        device_resident: true,
        selected_inputs: vec![SelectedInput { param: 0, position: 0, ty: 0, gradient_slot: 0 }],
        selected_outputs: Vec::new(),
    }]
}

fn program(reads_param: bool) -> Program {
    Program { functions: vec![entry(60), step(reads_param)], entry: Some(0) }
}

#[test]
fn the_training_loop_yields_its_trainable_parameter_and_gradient_link() {
    let facts = training_plan_facts(&program(true), &companions(), Some(3)).unwrap().expect("a training plan");
    assert_eq!(facts.step_count, 3);
    assert_eq!(facts.source_loop_bound, Some(3));
    assert_eq!(facts.trainable, vec![TrainableParam { step_function: 1, param_position: 0, update_output: 0, entry_local: 10 }]);
    assert_eq!(facts.gradients, vec![GradientLink { step_function: 1, gradient_position: 1, companion: 50, gradient_slot: 0 }]);
}

#[test]
fn the_default_step_count_must_agree_with_the_source_bound() {
    assert_eq!(DEFAULT_TRAINING_STEPS, 100);
    assert!(matches!(
        training_plan_facts(&program(true), &companions(), None),
        Err(TrainingError::StepCount(StepCountError::Contradicts { declared: 100, source: 3 }))
    ));
    assert_eq!(admit_step_count(7, None), Ok(7));
    assert_eq!(admit_step_count(7, Some(7)), Ok(7));
    assert_eq!(admit_step_count(7, Some(8)), Err(StepCountError::Contradicts { declared: 7, source: 8 }));
}

#[test]
fn an_update_that_does_not_read_its_parameter_is_refused() {
    assert!(matches!(
        training_plan_facts(&program(false), &companions(), Some(3)),
        Err(TrainingError::UpdateWithoutParam { function: 1, update_local: 102, slot: 0, param_local: 100 })
    ));
}

#[test]
fn without_an_entry_or_a_companion_call_there_is_no_plan() {
    let no_entry = Program { functions: vec![entry(60), step(true)], entry: None };
    assert!(matches!(training_plan_facts(&no_entry, &companions(), Some(3)), Ok(None)));
    assert!(matches!(training_plan_facts(&program(true), &Vec::new(), Some(3)), Ok(None)));
    // A step call to a function that is not in the program gives no parameter.
    let unknown_step = Program { functions: vec![entry(61), step(true)], entry: Some(0) };
    assert!(matches!(training_plan_facts(&unknown_step, &companions(), Some(3)), Ok(None)));
}

#[test]
fn the_source_loop_bound_follows_copies_and_ignores_non_literals() {
    assert_eq!(source_loop_bound(&entry(60)), Some(3));
    let mut f = entry(60);
    // `l1 = l4; l4 = 9`: one copy hop.
    f.blocks[0].statements = vec![
        Statement::Assign { place: plain_local(1), value: Value::Operand(local(4)) },
        Statement::Assign { place: plain_local(4), value: Value::Operand(Operand::Constant(Constant::Int(9))) },
    ];
    assert_eq!(source_loop_bound(&f), Some(9));
    // A copy cycle resolves to nothing.
    f.blocks[0].statements = vec![
        Statement::Assign { place: plain_local(1), value: Value::Operand(local(4)) },
        Statement::Assign { place: plain_local(4), value: Value::Operand(local(1)) },
    ];
    assert_eq!(source_loop_bound(&f), None);
    // A non-positive literal is no bound.
    f.blocks[0].statements = vec![Statement::Assign { place: plain_local(1), value: Value::Operand(Operand::Constant(Constant::Int(0))) }];
    assert_eq!(source_loop_bound(&f), None);
}

#[test]
fn the_tuple_trace_records_copies_and_extractions() {
    let trace = build_tuple_trace(&entry(60));
    let extracted: Vec<(u64, (u32, u32))> = trace.extract.entries.clone();
    assert_eq!(extracted, vec![(10, (21, 0)), (12, (20, 0))]);
    assert!(trace.plain_copy.entries.is_empty());
}

#[test]
fn return_tuple_locals_and_the_defining_read() {
    let f = step(true);
    assert_eq!(tuple_return_locals(&f), Some(vec![102]));
    assert!(statement_defining_reads(&f, 102, 100));
    assert!(!statement_defining_reads(&step(false), 102, 100));
    assert!(!statement_defining_reads(&f, 103, 100));
    assert_eq!(tuple_return_locals(&entry(60)), None);
}

#[test]
fn a_shape_list_or_fill_marks_a_shape_constructing_body() {
    let call = |intrinsic: Intrinsic| Statement::RuntimeCall { destination: Some(temp_place(1)), intrinsic, args: vec![local(0)] };
    let body = |statements: Vec<Statement>| Function {
        id: 3,
        source: Some(3),
        compute: true,
        tuple_return: false,
        params: vec![0],
        blocks: vec![
            Block { statements: Vec::new(), terminator: Terminator::Other },
            Block { statements, terminator: Terminator::Return(None) },
        ],
    };
    assert!(!function_has_shape_construction(&entry(7)));
    assert!(!function_has_shape_construction(&body(vec![call(Intrinsic::Other), call(Intrinsic::Collection(CollectionOp::Other))])));
    assert!(function_has_shape_construction(&body(vec![call(Intrinsic::Other), call(Intrinsic::Collection(CollectionOp::TensorShape))])));
    assert!(function_has_shape_construction(&body(vec![call(Intrinsic::Collection(CollectionOp::TensorCreate))])));
}

/// The step called twice per iteration with the same parameter: the
/// trainable list holds the parameter once, ordered by step function and
/// position.
#[test]
fn a_parameter_stepped_twice_is_listed_once() {
    let mut entry = entry(60);
    entry.blocks[2].statements.push(Statement::Call {
        destination: Some(temp_place(22)),
        callee: Callee::Definition(60),
        args: vec![local(10), local(12)],
    });
    entry.blocks[2].statements.push(Statement::Assign { place: plain_local(10), value: element(22, 0) });
    let program = Program { functions: vec![entry, step(true)], entry: Some(0) };
    let facts = training_plan_facts(&program, &companions(), Some(3)).unwrap().expect("a training plan");
    assert_eq!(facts.trainable, vec![TrainableParam { step_function: 1, param_position: 0, update_output: 0, entry_local: 10 }]);
    for pair in facts.gradients.windows(2) {
        assert!((pair[0].step_function, pair[0].gradient_position) <= (pair[1].step_function, pair[1].gradient_position));
        assert_ne!(pair[0], pair[1]);
    }
}
