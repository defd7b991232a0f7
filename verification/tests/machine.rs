use bf_jit::bytecode::Inst::{ADD, FINDZERO, GETC, JNZ, JZ, MOVPTR, MULINTO, PUTC, SETZERO};
use bf_jit::vm::{
    add_wrapping, check_memory_bound, low_byte, moved, mul_add_wrapping, Due, Input, Program,
    RuntimeError, Stop, EOF, JIT_EXEC_TH, MEMSIZE, VM,
};

#[test]
fn run_hello_world() {
    // "+[-->-[>>+>-----<<]<--<---]>-.>>>+.>>..+++[.>]<<<<.+++.------.<<-.>>>>+."
    // include memory underflow
    let bytecodes = vec![
        ADD(1),
        JZ(17),
        ADD(-2),
        MOVPTR(1),
        ADD(-1),
        JZ(12),
        MOVPTR(2),
        ADD(1),
        MOVPTR(1),
        ADD(-5),
        MOVPTR(-2),
        JNZ(6),
        MOVPTR(-1),
        ADD(-2),
        MOVPTR(-1),
        ADD(-3),
        JNZ(2),
        MOVPTR(1),
        ADD(-1),
        PUTC,
        MOVPTR(3),
        ADD(1),
        PUTC,
        MOVPTR(2),
        PUTC,
        PUTC,
        ADD(3),
        JZ(31),
        PUTC,
        MOVPTR(1),
        JNZ(28),
        MOVPTR(-4),
        PUTC,
        ADD(3),
        PUTC,
        ADD(-6),
        PUTC,
        MOVPTR(-2),
        ADD(-1),
        PUTC,
        MOVPTR(4),
        ADD(1),
        PUTC,
    ];
    let mut vm = VM::new();
    let mut output = vec![];
    let _ = vm
        .run(
            &Program { bytecodes },
            &mut Input::new("".as_bytes().to_vec()),
            &mut output,
            false,
            u64::MAX,
        )
        .unwrap();
    assert_eq!(
        "Hello, World!"
            .chars()
            .map(|c| c as u8)
            .collect::<Vec<u8>>(),
        output
    );
}

#[test]
fn run_movev() {
    // "++++++++++>>[-]<<[->>+<<]"
    let bytecodes = vec![ADD(10), MOVPTR(2), SETZERO, MOVPTR(-2), MULINTO(1, 2)];
    let mut vm = VM::starting_at(0).unwrap();
    let _ = vm
        .run(
            &Program { bytecodes },
            &mut Input::new("".as_bytes().to_vec()),
            &mut vec![],
            false,
            u64::MAX,
        )
        .unwrap();
    assert_eq!(vm.mem()[0..3], [0, 0, 10]);
}

#[test]
fn run_cat() {
    // ",[.,]"
    // EOF == 0
    let bytecodes = vec![GETC, JZ(5), PUTC, GETC, JNZ(2)];
    let mut vm = VM::new();

    let text = "testtesttesttest\n";

    let mut input = Input::new(text.as_bytes().to_vec());
    let mut output = vec![];
    let _ = vm
        .run(&Program { bytecodes }, &mut input, &mut output, false, u64::MAX)
        .unwrap();
    assert_eq!(text.chars().map(|c| c as u8).collect::<Vec<u8>>(), output);
}

#[test]
fn run_out_of_range() {
    let bytecodes = vec![MOVPTR(MEMSIZE as isize)];
    let mut vm = VM::new();
    let res = vm.run(
        &Program { bytecodes },
        &mut Input::new("".as_bytes().to_vec()),
        &mut vec![],
        false,
        u64::MAX,
    );

    assert_eq!(Some(RuntimeError::MemoryOutofRange), res.err());
}

#[test]
fn run_findzero() {
    let bytecodes = vec![
        ADD(1),
        MOVPTR(1),
        ADD(2),
        MOVPTR(1),
        ADD(3),
        MOVPTR(-2),
        FINDZERO(1),
    ];
    let mut vm = VM::starting_at(0).unwrap();
    let _ = vm
        .run(
            &Program { bytecodes },
            &mut Input::new("".as_bytes().to_vec()),
            &mut vec![],
            false,
            u64::MAX,
        )
        .unwrap();
    assert_eq!(vm.mem()[0..4], [1, 2, 3, 0]);
    assert_eq!(vm.mem_ptr(), 3)
}

fn run_on(vm: &mut VM, bytecodes: Vec<bf_jit::bytecode::Inst>) -> Result<Stop, RuntimeError> {
    vm.run(
        &Program { bytecodes },
        &mut Input::new(vec![]),
        &mut vec![],
        false,
        u64::MAX,
    )
}

#[test]
fn constants() {
    assert_eq!(MEMSIZE, 100000);
    assert_eq!(EOF, 0);
    assert_eq!(JIT_EXEC_TH, 5);
}

#[test]
fn new_machine() {
    let vm = VM::new();
    assert_eq!(vm.mem_ptr(), MEMSIZE / 2);
    assert_eq!(vm.pc(), 0);
    assert_eq!(vm.mem().len(), MEMSIZE);
    assert!(vm.mem().iter().all(|cell| *cell == 0));
    let other = VM::default();
    assert_eq!(other.mem_ptr(), 50000);
    assert_eq!(other.pc(), 0);
}

#[test]
fn starting_at_a_cell_or_not() {
    assert_eq!(VM::starting_at(0).unwrap().mem_ptr(), 0);
    assert_eq!(VM::starting_at(MEMSIZE - 1).unwrap().mem_ptr(), MEMSIZE - 1);
    assert!(VM::starting_at(MEMSIZE).is_none());
    assert!(VM::starting_at(usize::MAX).is_none());
}

#[test]
fn run_finishes_an_empty_program() {
    let mut vm = VM::new();
    assert_eq!(run_on(&mut vm, vec![]), Ok(Stop::Finished));
    assert_eq!(vm.pc(), 0);
}

#[test]
fn run_set_zero_then_add() {
    // "[-]+" from zero
    let mut vm = VM::new();
    assert_eq!(run_on(&mut vm, vec![SETZERO, ADD(1)]), Ok(Stop::Finished));
    assert_eq!(vm.mem()[MEMSIZE / 2], 1);
    assert_eq!(vm.pc(), 2);
}

#[test]
fn add_wraps() {
    let mut vm = VM::new();
    assert_eq!(run_on(&mut vm, vec![ADD(-1)]), Ok(Stop::Finished));
    assert_eq!(vm.mem()[MEMSIZE / 2], 255);
    let mut vm = VM::new();
    assert_eq!(run_on(&mut vm, vec![ADD(255), ADD(3)]), Ok(Stop::Finished));
    assert_eq!(vm.mem()[MEMSIZE / 2], 2);
    let mut vm = VM::new();
    assert_eq!(run_on(&mut vm, vec![ADD(1000)]), Ok(Stop::Finished));
    assert_eq!(vm.mem()[MEMSIZE / 2], 232);
    let mut vm = VM::new();
    assert_eq!(run_on(&mut vm, vec![ADD(-1000)]), Ok(Stop::Finished));
    assert_eq!(vm.mem()[MEMSIZE / 2], 24);
}

#[test]
fn wrapping_helpers() {
    assert_eq!(low_byte(0), 0);
    assert_eq!(low_byte(255), 255);
    assert_eq!(low_byte(256), 0);
    assert_eq!(low_byte(-1), 255);
    assert_eq!(low_byte(-256), 0);
    assert_eq!(low_byte(-257), 255);
    assert_eq!(low_byte(isize::MIN), 0);
    assert_eq!(low_byte(isize::MAX), 255);
    assert_eq!(add_wrapping(250, 10), 4);
    assert_eq!(add_wrapping(0, -1), 255);
    assert_eq!(add_wrapping(7, 0), 7);
    assert_eq!(mul_add_wrapping(1, 3, 5), 16);
    assert_eq!(mul_add_wrapping(0, -1, 1), 255);
    assert_eq!(mul_add_wrapping(10, 2, 200), 154);
    assert_eq!(mul_add_wrapping(0, 257, 3), 3);
    assert_eq!(mul_add_wrapping(9, isize::MAX, 0), 9);
}

#[test]
fn mulinto_multiplies_and_clears() {
    let mut vm = VM::new();
    assert_eq!(
        run_on(&mut vm, vec![ADD(7), MOVPTR(3), ADD(1), MOVPTR(-3), MULINTO(5, 3)]),
        Ok(Stop::Finished)
    );
    assert_eq!(vm.mem()[MEMSIZE / 2], 0);
    assert_eq!(vm.mem()[MEMSIZE / 2 + 3], 36);
}

#[test]
fn mulinto_with_negative_factor_and_offset() {
    let mut vm = VM::new();
    assert_eq!(run_on(&mut vm, vec![ADD(3), MULINTO(-2, -1)]), Ok(Stop::Finished));
    assert_eq!(vm.mem()[MEMSIZE / 2], 0);
    assert_eq!(vm.mem()[MEMSIZE / 2 - 1], 250);
}

#[test]
fn mulinto_onto_itself_clears() {
    let mut vm = VM::new();
    assert_eq!(run_on(&mut vm, vec![ADD(3), MULINTO(2, 0)]), Ok(Stop::Finished));
    assert_eq!(vm.mem()[MEMSIZE / 2], 0);
}

#[test]
fn mulinto_out_of_range() {
    let mut vm = VM::starting_at(0).unwrap();
    assert_eq!(
        run_on(&mut vm, vec![ADD(1), MULINTO(1, -1)]),
        Err(RuntimeError::MemoryOutofRange)
    );
    assert_eq!(vm.mem()[0], 1);
    assert_eq!(vm.pc(), 1);
    let mut vm = VM::starting_at(MEMSIZE - 1).unwrap();
    assert_eq!(
        run_on(&mut vm, vec![MULINTO(1, 1)]),
        Err(RuntimeError::MemoryOutofRange)
    );
}

#[test]
fn movptr_stays_on_the_tape() {
    let mut vm = VM::new();
    assert_eq!(
        run_on(&mut vm, vec![MOVPTR(MEMSIZE as isize / 2 - 1)]),
        Ok(Stop::Finished)
    );
    assert_eq!(vm.mem_ptr(), MEMSIZE - 1);
    let mut vm = VM::new();
    assert_eq!(
        run_on(&mut vm, vec![MOVPTR(-(MEMSIZE as isize) / 2)]),
        Ok(Stop::Finished)
    );
    assert_eq!(vm.mem_ptr(), 0);
}

#[test]
fn movptr_off_the_tape_fails_and_changes_nothing() {
    let mut vm = VM::new();
    assert_eq!(
        run_on(&mut vm, vec![ADD(1), MOVPTR(MEMSIZE as isize / 2)]),
        Err(RuntimeError::MemoryOutofRange)
    );
    assert_eq!(vm.mem_ptr(), MEMSIZE / 2);
    assert_eq!(vm.pc(), 1);
    let mut vm = VM::new();
    assert_eq!(
        run_on(&mut vm, vec![MOVPTR(-(MEMSIZE as isize) / 2 - 1)]),
        Err(RuntimeError::MemoryOutofRange)
    );
    let mut vm = VM::new();
    assert_eq!(
        run_on(&mut vm, vec![MOVPTR(isize::MAX)]),
        Err(RuntimeError::MemoryOutofRange)
    );
    let mut vm = VM::new();
    assert_eq!(
        run_on(&mut vm, vec![MOVPTR(isize::MIN)]),
        Err(RuntimeError::MemoryOutofRange)
    );
}

#[test]
fn findzero_stops_at_once_on_zero() {
    let mut vm = VM::new();
    assert_eq!(run_on(&mut vm, vec![FINDZERO(1)]), Ok(Stop::Finished));
    assert_eq!(vm.mem_ptr(), MEMSIZE / 2);
}

#[test]
fn findzero_off_the_tape() {
    let mut vm = VM::starting_at(1).unwrap();
    assert_eq!(
        run_on(&mut vm, vec![ADD(1), MOVPTR(-1), ADD(1), MOVPTR(1), FINDZERO(-1)]),
        Err(RuntimeError::MemoryOutofRange)
    );
    assert_eq!(vm.mem_ptr(), 0);
}

#[test]
fn findzero_backwards_by_two() {
    let mut vm = VM::starting_at(4).unwrap();
    assert_eq!(
        run_on(
            &mut vm,
            vec![ADD(1), MOVPTR(-1), ADD(1), MOVPTR(-1), ADD(1), MOVPTR(2), FINDZERO(-2)]
        ),
        Ok(Stop::Finished)
    );
    assert_eq!(vm.mem_ptr(), 0);
}

#[test]
fn jumps_follow_the_cell() {
    let mut vm = VM::new();
    let mut output = vec![];
    let r = vm.run(
        &Program {
            bytecodes: vec![JZ(3), ADD(65), PUTC, ADD(66), PUTC],
        },
        &mut Input::new(vec![]),
        &mut output,
        false,
        u64::MAX,
    );
    assert_eq!(r, Ok(Stop::Finished));
    assert_eq!(output, vec![66]);
    let mut vm = VM::new();
    let mut output = vec![];
    let r = vm.run(
        &Program {
            bytecodes: vec![ADD(3), PUTC, ADD(-1), JNZ(1)],
        },
        &mut Input::new(vec![]),
        &mut output,
        false,
        u64::MAX,
    );
    assert_eq!(r, Ok(Stop::Finished));
    assert_eq!(output, vec![3, 2, 1]);
}

#[test]
fn jump_behind_the_program_ends_the_run() {
    let mut vm = VM::new();
    assert_eq!(run_on(&mut vm, vec![JZ(1000), ADD(1)]), Ok(Stop::Finished));
    assert_eq!(vm.pc(), 1000);
    assert_eq!(vm.mem()[MEMSIZE / 2], 0);
}

#[test]
fn getc_stores_eof_as_zero() {
    let mut vm = VM::new();
    let mut input = Input::new(vec![7]);
    let r = vm.run(
        &Program {
            bytecodes: vec![GETC, MOVPTR(1), ADD(9), GETC],
        },
        &mut input,
        &mut vec![],
        false,
        u64::MAX,
    );
    assert_eq!(r, Ok(Stop::Finished));
    assert_eq!(vm.mem()[MEMSIZE / 2], 7);
    assert_eq!(vm.mem()[MEMSIZE / 2 + 1], 0);
}

#[test]
fn input_reads_byte_by_byte() {
    let mut input = Input::new(vec![1, 2]);
    assert_eq!(input.read(), 1);
    assert_eq!(input.read(), 2);
    assert_eq!(input.read(), EOF);
    assert_eq!(input.read(), EOF);
}

#[test]
fn run_leaves_what_it_did_not_read() {
    let mut vm = VM::new();
    let mut input = Input::new(vec![1, 2, 3]);
    let r = vm.run(
        &Program {
            bytecodes: vec![GETC, GETC],
        },
        &mut input,
        &mut vec![],
        false,
        u64::MAX,
    );
    assert_eq!(r, Ok(Stop::Finished));
    assert_eq!(input.read(), 3);
}

#[test]
fn run_adds_to_what_was_written() {
    let mut vm = VM::new();
    let mut output = vec![1, 2];
    let r = vm.run(
        &Program {
            bytecodes: vec![ADD(3), PUTC],
        },
        &mut Input::new(vec![]),
        &mut output,
        false,
        u64::MAX,
    );
    assert_eq!(r, Ok(Stop::Finished));
    assert_eq!(output, vec![1, 2, 3]);
}

#[test]
fn run_stops_at_the_limit() {
    // "+[]"
    let program = Program {
        bytecodes: vec![ADD(1), JZ(3), JNZ(2)],
    };
    let mut vm = VM::new();
    let r = vm.run(&program, &mut Input::new(vec![]), &mut vec![], false, 1000);
    assert_eq!(r, Ok(Stop::Limit));
    let r = vm.run(&program, &mut Input::new(vec![]), &mut vec![], false, 0);
    assert_eq!(r, Ok(Stop::Limit));
}

#[test]
fn run_counts_steps() {
    let program = Program {
        bytecodes: vec![ADD(1), ADD(1), ADD(1)],
    };
    let mut vm = VM::new();
    let r = vm.run(&program, &mut Input::new(vec![]), &mut vec![], false, 2);
    assert_eq!(r, Ok(Stop::Limit));
    assert_eq!(vm.pc(), 2);
    assert_eq!(vm.mem()[MEMSIZE / 2], 2);
    let r = vm.run(&program, &mut Input::new(vec![]), &mut vec![], false, 1);
    assert_eq!(r, Ok(Stop::Finished));
    assert_eq!(vm.mem()[MEMSIZE / 2], 3);
}

#[test]
fn a_higher_limit_changes_nothing_once_finished() {
    let bytecodes = vec![ADD(3), PUTC, ADD(-1), JNZ(1)];
    let mut first = VM::new();
    let mut out_first = vec![];
    let a = first.run(
        &Program {
            bytecodes: bytecodes.clone(),
        },
        &mut Input::new(vec![]),
        &mut out_first,
        false,
        100,
    );
    let mut second = VM::new();
    let mut out_second = vec![];
    let b = second.run(
        &Program { bytecodes },
        &mut Input::new(vec![]),
        &mut out_second,
        false,
        100000,
    );
    assert_eq!(a, Ok(Stop::Finished));
    assert_eq!(a, b);
    assert_eq!(out_first, out_second);
    assert_eq!(first.mem(), second.mem());
    assert_eq!(first.mem_ptr(), second.mem_ptr());
    assert_eq!(first.pc(), second.pc());
}

#[test]
fn run_with_native_code_enabled_hands_the_rest_off() {
    let program = Program {
        bytecodes: vec![ADD(1), PUTC, ADD(1)],
    };
    let mut vm = VM::new();
    let mut output = vec![];
    let r = vm.run(&program, &mut Input::new(vec![]), &mut output, true, u64::MAX);
    assert_eq!(r, Ok(Stop::HandOff { start: 0, end: 2 }));
    assert_eq!(vm.pc(), 0);
    assert_eq!(output, Vec::<u8>::new());
    let mut vm = VM::new();
    let r = vm.run(
        &Program { bytecodes: vec![] },
        &mut Input::new(vec![]),
        &mut output,
        true,
        u64::MAX,
    );
    assert_eq!(r, Ok(Stop::Finished));
}

#[test]
fn due_tells_what_comes_next() {
    let program = Program {
        bytecodes: vec![GETC, PUTC],
    };
    let mut vm = VM::new();
    assert_eq!(vm.due(&program, false), Due::Read);
    assert_eq!(vm.due(&program, true), Due::HandOff { start: 0, end: 1 });
    assert_eq!(vm.step(&program, 65), Ok(None));
    assert_eq!(vm.due(&program, false), Due::Step);
    assert_eq!(vm.due(&program, true), Due::HandOff { start: 1, end: 1 });
    assert_eq!(vm.step(&program, 0), Ok(Some(65)));
    assert_eq!(vm.due(&program, false), Due::Halt);
    assert_eq!(vm.due(&program, true), Due::Halt);
    assert_eq!(vm.step(&program, 0), Ok(None));
    assert_eq!(vm.pc(), 2);
}

#[test]
fn step_runs_one_instruction() {
    let program = Program {
        bytecodes: vec![ADD(2), FINDZERO(1), MOVPTR(-(MEMSIZE as isize))],
    };
    let mut vm = VM::new();
    assert_eq!(vm.step(&program, 9), Ok(None));
    assert_eq!(vm.mem()[MEMSIZE / 2], 2);
    assert_eq!(vm.pc(), 1);
    assert_eq!(vm.step(&program, 9), Ok(None));
    assert_eq!(vm.mem_ptr(), MEMSIZE / 2 + 1);
    assert_eq!(vm.pc(), 1);
    assert_eq!(vm.step(&program, 9), Ok(None));
    assert_eq!(vm.mem_ptr(), MEMSIZE / 2 + 1);
    assert_eq!(vm.pc(), 2);
    assert_eq!(vm.step(&program, 9), Err(RuntimeError::MemoryOutofRange));
    assert_eq!(vm.pc(), 2);
    assert_eq!(vm.mem_ptr(), MEMSIZE / 2 + 1);
}

#[test]
fn resume_goes_on_behind_the_native_code() {
    let mut vm = VM::new();
    let mut tape = vec![0u8; MEMSIZE];
    tape[5] = 42;
    assert_eq!(vm.resume(9, 5, tape), Ok(()));
    assert_eq!(vm.pc(), 10);
    assert_eq!(vm.mem_ptr(), 5);
    assert_eq!(vm.mem()[5], 42);
}

#[test]
fn resume_takes_no_wrong_tape_or_cursor() {
    let mut vm = VM::new();
    assert_eq!(
        vm.resume(9, 5, vec![0u8; 10]),
        Err(RuntimeError::MemoryOutofRange)
    );
    assert_eq!(
        vm.resume(9, MEMSIZE, vec![0u8; MEMSIZE]),
        Err(RuntimeError::MemoryOutofRange)
    );
    assert_eq!(vm.pc(), 0);
    assert_eq!(vm.mem_ptr(), MEMSIZE / 2);
    assert_eq!(vm.mem().len(), MEMSIZE);
}

#[test]
fn check_memory_bound_cases() {
    assert_eq!(check_memory_bound(0, 10), Ok(0));
    assert_eq!(check_memory_bound(9, 10), Ok(9));
    assert_eq!(check_memory_bound(10, 10), Err(RuntimeError::MemoryOutofRange));
    assert_eq!(check_memory_bound(-1, 10), Err(RuntimeError::MemoryOutofRange));
    assert_eq!(check_memory_bound(0, 0), Err(RuntimeError::MemoryOutofRange));
    assert_eq!(
        check_memory_bound(isize::MAX, usize::MAX),
        Ok(isize::MAX as usize)
    );
}

#[test]
fn moved_cases() {
    assert_eq!(moved(0, 0), Ok(0));
    assert_eq!(moved(5, -5), Ok(0));
    assert_eq!(moved(5, -6), Err(RuntimeError::MemoryOutofRange));
    assert_eq!(moved(0, MEMSIZE as isize - 1), Ok(MEMSIZE - 1));
    assert_eq!(moved(0, MEMSIZE as isize), Err(RuntimeError::MemoryOutofRange));
    assert_eq!(moved(MEMSIZE - 1, 1), Err(RuntimeError::MemoryOutofRange));
    assert_eq!(moved(MEMSIZE - 1, -(MEMSIZE as isize - 1)), Ok(0));
    assert_eq!(moved(3, isize::MIN), Err(RuntimeError::MemoryOutofRange));
}
