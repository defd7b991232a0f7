use bf_jit::bytecode::{compile, CompileError};
use bf_jit::token::tokenize;
use bf_jit::vm::{Input, Program, RuntimeError, Stop, MEMSIZE, VM};
use bf_jit::{run, run_with_jit, Error, _run};

#[test]
fn run_hello_world_text() {
    let codes = "++++++++[>++++[>++>+++>+++>+<<<<-]>+>+>->>+[<]<-]>>.>---.+++++++..+++.>>.<-.<.+++.------.--------.>>+.>++.";
    let mut output = vec![];
    let r = run(codes, &mut Input::new(vec![]), &mut output, u64::MAX);
    assert_eq!(r, Ok(Stop::Finished));
    assert_eq!(output.len(), 13);
    assert_eq!(output, "Hello World!\n".as_bytes().to_vec());
}

#[test]
fn run_cat_text() {
    let text = "testtesttesttest\n";
    let mut input = Input::new(text.as_bytes().to_vec());
    let mut output = vec![];
    let r = run(",[.,]", &mut input, &mut output, u64::MAX);
    assert_eq!(r, Ok(Stop::Finished));
    assert_eq!(output, text.as_bytes().to_vec());
}

#[test]
fn run_off_the_tape() {
    let codes = ">".repeat(MEMSIZE);
    let r = run(&codes, &mut Input::new(vec![]), &mut vec![], u64::MAX);
    assert_eq!(r, Err(Error::Runtime(RuntimeError::MemoryOutofRange)));
}

#[test]
fn run_up_to_the_last_cell() {
    let codes = ">".repeat(MEMSIZE / 2 - 1);
    let r = run(&codes, &mut Input::new(vec![]), &mut vec![], u64::MAX);
    assert_eq!(r, Ok(Stop::Finished));
    let codes = ">".repeat(MEMSIZE / 2);
    let r = run(&codes, &mut Input::new(vec![]), &mut vec![], u64::MAX);
    assert_eq!(r, Err(Error::Runtime(RuntimeError::MemoryOutofRange)));
    let codes = "<".repeat(MEMSIZE / 2);
    let r = run(&codes, &mut Input::new(vec![]), &mut vec![], u64::MAX);
    assert_eq!(r, Ok(Stop::Finished));
    let codes = "<".repeat(MEMSIZE / 2 + 1);
    let r = run(&codes, &mut Input::new(vec![]), &mut vec![], u64::MAX);
    assert_eq!(r, Err(Error::Runtime(RuntimeError::MemoryOutofRange)));
}

#[test]
fn run_unmatched_open() {
    let mut output = vec![];
    let r = run("[++", &mut Input::new(vec![]), &mut output, u64::MAX);
    assert_eq!(r, Err(Error::Compile(CompileError::LSQBMismatch(0))));
    assert_eq!(output, Vec::<u8>::new());
}

#[test]
fn run_unmatched_close() {
    let r = run("[++]]", &mut Input::new(vec![]), &mut vec![], u64::MAX);
    assert_eq!(r, Err(Error::Compile(CompileError::RSQBMismatch(4))));
}

#[test]
fn run_does_not_start_what_does_not_compile() {
    let mut input = Input::new(vec![5]);
    let mut output = vec![];
    let r = run(",.]", &mut input, &mut output, u64::MAX);
    assert_eq!(r, Err(Error::Compile(CompileError::RSQBMismatch(2))));
    assert_eq!(output, Vec::<u8>::new());
    assert_eq!(input.read(), 5);
}

#[test]
fn run_skips_comments() {
    let mut output = vec![];
    let r = run(
        "add three: +++ and write it: . done",
        &mut Input::new(vec![]),
        &mut output,
        u64::MAX,
    );
    assert_eq!(r, Ok(Stop::Finished));
    assert_eq!(output, vec![3]);
}

#[test]
fn run_set_zero_then_add_leaves_one() {
    let mut output = vec![];
    let r = run("[-]+.", &mut Input::new(vec![]), &mut output, u64::MAX);
    assert_eq!(r, Ok(Stop::Finished));
    assert_eq!(output, vec![1]);
    let mut output = vec![];
    let r = run("+++++[-]+.", &mut Input::new(vec![]), &mut output, u64::MAX);
    assert_eq!(r, Ok(Stop::Finished));
    assert_eq!(output, vec![1]);
}

#[test]
fn run_moves_ten_two_cells_on() {
    // the cell under the cursor holds 10 before the text runs
    let mut bytecodes = compile(&tokenize("++++++++++")).unwrap();
    bytecodes.extend(compile(&tokenize(">>[-]<<[->>+<<]")).unwrap());
    let mut vm = VM::new();
    let r = vm.run(
        &Program { bytecodes },
        &mut Input::new(vec![]),
        &mut vec![],
        false,
        u64::MAX,
    );
    assert_eq!(r, Ok(Stop::Finished));
    assert_eq!(vm.mem_ptr(), MEMSIZE / 2);
    assert_eq!(vm.mem()[MEMSIZE / 2..MEMSIZE / 2 + 3], [0, 0, 10]);
}

#[test]
fn run_folded_and_unfolded_loops_agree() {
    // "[->+<]" is folded; "[->+<.]" with a write in it is not
    let mut folded = vec![];
    let r = run(
        "+++++[->+<]>.",
        &mut Input::new(vec![]),
        &mut folded,
        u64::MAX,
    );
    assert_eq!(r, Ok(Stop::Finished));
    assert_eq!(folded, vec![5]);
    let mut plain = vec![];
    let r = run(
        "+++++[->+<,]>.",
        &mut Input::new(vec![1, 1, 1, 1, 0]),
        &mut plain,
        u64::MAX,
    );
    assert_eq!(r, Ok(Stop::Finished));
    assert_eq!(plain, vec![5]);
}

#[test]
fn run_stops_an_endless_loop_at_the_limit() {
    let r = run("+[]", &mut Input::new(vec![]), &mut vec![], 10000);
    assert_eq!(r, Ok(Stop::Limit));
}

#[test]
fn run_with_jit_names_the_whole_program() {
    let mut input = Input::new(vec![5]);
    let mut output = vec![];
    let r = run_with_jit(",.+[-]", &mut input, &mut output, u64::MAX);
    assert_eq!(r, Ok(Stop::HandOff { start: 0, end: 3 }));
    assert_eq!(output, Vec::<u8>::new());
    assert_eq!(input.read(), 5);
}

#[test]
fn run_with_jit_of_an_empty_text() {
    let r = run_with_jit("no command", &mut Input::new(vec![]), &mut vec![], 0);
    assert_eq!(r, Ok(Stop::Finished));
}

#[test]
fn run_with_jit_still_compiles() {
    let r = run_with_jit("[", &mut Input::new(vec![]), &mut vec![], u64::MAX);
    assert_eq!(r, Err(Error::Compile(CompileError::LSQBMismatch(0))));
}

#[test]
fn run_both_ways_through_one_function() {
    let mut output = vec![];
    assert_eq!(
        _run("+.", &mut Input::new(vec![]), &mut output, false, 5),
        Ok(Stop::Finished)
    );
    assert_eq!(output, vec![1]);
    assert_eq!(
        _run("+.", &mut Input::new(vec![]), &mut vec![], true, 5),
        Ok(Stop::HandOff { start: 0, end: 1 })
    );
}
