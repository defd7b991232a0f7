use bf_jit::bytecode::Inst::{ADD, FINDZERO, GETC, JNZ, JZ, MOVPTR, MULINTO, PUTC, SETZERO};
use bf_jit::bytecode::{close_loop, compile, fold_tail, CompileError, Inst};
use bf_jit::token::tokenize;
use bf_jit::token::Token::{COMMA, DOT, GT, LSQB, LT, MINUS, PLUS, RSQB};

#[test]
fn compile_movev() {
    let tokens = vec![
        GT, GT, LSQB, MINUS, RSQB, LT, LT, LSQB, MINUS, GT, GT, PLUS, LT, LT, RSQB,
    ];
    let insts = compile(&tokens);
    assert_eq!(
        vec![MOVPTR(2), SETZERO, MOVPTR(-2), MULINTO(1, 2)],
        insts.unwrap()
    );
}

#[test]
fn compile_hello_world_red() {
    // "++++++++[>++++[>++>+++>+++>+<<<<-]>+>+>->>+[<]<-]>>.>---.+++++++..+++.>>.<-.<.+++.------.--------.>>+.>++."
    let tokens = vec![
        PLUS, PLUS, PLUS, PLUS, PLUS, PLUS, PLUS, PLUS, LSQB, GT, PLUS, PLUS, PLUS, PLUS, LSQB,
        GT, PLUS, PLUS, GT, PLUS, PLUS, PLUS, GT, PLUS, PLUS, PLUS, GT, PLUS, LT, LT, LT, LT,
        MINUS, RSQB, GT, PLUS, GT, PLUS, GT, MINUS, GT, GT, PLUS, LSQB, LT, RSQB, LT, MINUS,
        RSQB, GT, GT, DOT, GT, MINUS, MINUS, MINUS, DOT, PLUS, PLUS, PLUS, PLUS, PLUS, PLUS,
        PLUS, DOT, DOT, PLUS, PLUS, PLUS, DOT, GT, GT, DOT, LT, MINUS, DOT, LT, DOT, PLUS,
        PLUS, PLUS, DOT, MINUS, MINUS, MINUS, MINUS, MINUS, MINUS, DOT, MINUS, MINUS, MINUS,
        MINUS, MINUS, MINUS, MINUS, MINUS, DOT, GT, GT, PLUS, DOT, GT, PLUS, PLUS, DOT,
    ];
    let insts = compile(&tokens);
    assert_eq!(
        vec![
            ADD(8),
            JZ(28),
            MOVPTR(1),
            ADD(4),
            JZ(16),
            MOVPTR(1),
            ADD(2),
            MOVPTR(1),
            ADD(3),
            MOVPTR(1),
            ADD(3),
            MOVPTR(1),
            ADD(1),
            MOVPTR(-4),
            ADD(-1),
            JNZ(5),
            MOVPTR(1),
            ADD(1),
            MOVPTR(1),
            ADD(1),
            MOVPTR(1),
            ADD(-1),
            MOVPTR(2),
            ADD(1),
            FINDZERO(-1),
            MOVPTR(-1),
            ADD(-1),
            JNZ(2),
            MOVPTR(2),
            PUTC,
            MOVPTR(1),
            ADD(-3),
            PUTC,
            ADD(7),
            PUTC,
            PUTC,
            ADD(3),
            PUTC,
            MOVPTR(2),
            PUTC,
            MOVPTR(-1),
            ADD(-1),
            PUTC,
            MOVPTR(-1),
            PUTC,
            ADD(3),
            PUTC,
            ADD(-6),
            PUTC,
            ADD(-8),
            PUTC,
            MOVPTR(2),
            ADD(1),
            PUTC,
            MOVPTR(1),
            ADD(2),
            PUTC
        ],
        insts.unwrap()
    );
}

#[test]
fn compile_lsqb_error() {
    let tokens = vec![LSQB, PLUS, PLUS];
    let insts = compile(&tokens);
    assert_eq!(Some(CompileError::LSQBMismatch(0)), insts.err());
}

#[test]
fn compile_rsqb_error() {
    let tokens = vec![LSQB, PLUS, PLUS, RSQB, RSQB];
    let insts = compile(&tokens);
    assert_eq!(Some(CompileError::RSQBMismatch(4)), insts.err());
}

#[test]
fn compile_nothing() {
    assert_eq!(Ok(Vec::<Inst>::new()), compile(&vec![]));
}

#[test]
fn compile_joins_runs() {
    assert_eq!(Ok(vec![ADD(3)]), compile(&tokenize("+++")));
    assert_eq!(Ok(vec![ADD(-2)]), compile(&tokenize("--")));
    assert_eq!(Ok(vec![MOVPTR(4)]), compile(&tokenize(">>>>")));
    assert_eq!(Ok(vec![MOVPTR(-1)]), compile(&tokenize("<")));
    assert_eq!(
        Ok(vec![ADD(2), ADD(-1), ADD(1), MOVPTR(1), MOVPTR(-2), MOVPTR(1)]),
        compile(&tokenize("++-+><<>"))
    );
}

#[test]
fn compile_does_not_join_reads_and_writes() {
    assert_eq!(
        Ok(vec![PUTC, PUTC, GETC, GETC, ADD(1), PUTC, ADD(1)]),
        compile(&tokenize("..,,+.+"))
    );
}

#[test]
fn compile_a_run_ends_at_a_bracket() {
    assert_eq!(
        Ok(vec![ADD(2), JZ(5), ADD(2), PUTC, JNZ(2), ADD(2)]),
        compile(&tokenize("++[++.]++"))
    );
}

#[test]
fn compile_set_zero_both_ways() {
    assert_eq!(Ok(vec![SETZERO]), compile(&tokenize("[-]")));
    assert_eq!(Ok(vec![SETZERO]), compile(&tokenize("[+]")));
    assert_eq!(Ok(vec![SETZERO, ADD(1)]), compile(&tokenize("[-]+")));
}

#[test]
fn compile_longer_add_is_no_set_zero() {
    assert_eq!(
        Ok(vec![JZ(3), ADD(-2), JNZ(1)]),
        compile(&tokenize("[--]"))
    );
}

#[test]
fn compile_copy_loop_is_mulinto_not_findzero() {
    assert_eq!(Ok(vec![MULINTO(1, 1)]), compile(&tokenize("[->+<]")));
}

#[test]
fn compile_mulinto_shapes() {
    assert_eq!(Ok(vec![MULINTO(3, 2)]), compile(&tokenize("[->>+++<<]")));
    assert_eq!(Ok(vec![MULINTO(2, -1)]), compile(&tokenize("[-<++>]")));
    assert_eq!(Ok(vec![MULINTO(1, 3)]), compile(&tokenize("[>>>+<<<-]")));
    assert_eq!(Ok(vec![MULINTO(-1, 1)]), compile(&tokenize("[->-<]")));
}

#[test]
fn compile_unbalanced_moves_are_no_mulinto() {
    assert_eq!(
        Ok(vec![JZ(6), ADD(-1), MOVPTR(2), ADD(1), MOVPTR(-1), JNZ(1)]),
        compile(&tokenize("[->>+<]"))
    );
}

#[test]
fn compile_increment_first_is_no_mulinto() {
    assert_eq!(
        Ok(vec![JZ(6), ADD(1), MOVPTR(1), ADD(1), MOVPTR(-1), JNZ(1)]),
        compile(&tokenize("[+>+<]"))
    );
}

#[test]
fn compile_find_zero_both_ways() {
    assert_eq!(Ok(vec![FINDZERO(3)]), compile(&tokenize("[>>>]")));
    assert_eq!(Ok(vec![FINDZERO(-1)]), compile(&tokenize("[<]")));
}

#[test]
fn compile_nested_loops_name_each_other() {
    assert_eq!(
        Ok(vec![JZ(6), PUTC, JZ(5), PUTC, JNZ(3), JNZ(1)]),
        compile(&tokenize("[.[.]]"))
    );
}

#[test]
fn compile_fold_inside_a_loop() {
    assert_eq!(
        Ok(vec![JZ(4), SETZERO, PUTC, JNZ(1)]),
        compile(&tokenize("[[-].]"))
    );
}

#[test]
fn compile_empty_loop() {
    assert_eq!(Ok(vec![JZ(2), JNZ(1)]), compile(&tokenize("[]")));
}

#[test]
fn compile_unmatched_open_from_text() {
    assert_eq!(
        Err(CompileError::LSQBMismatch(0)),
        compile(&tokenize("[++"))
    );
}

#[test]
fn compile_unmatched_close_from_text() {
    assert_eq!(
        Err(CompileError::RSQBMismatch(4)),
        compile(&tokenize("[++]]"))
    );
}

#[test]
fn compile_reports_the_first_open_bracket() {
    assert_eq!(
        Err(CompileError::LSQBMismatch(1)),
        compile(&tokenize("+[.[.[-]"))
    );
    assert_eq!(
        Err(CompileError::LSQBMismatch(3)),
        compile(&tokenize("[.][.[.]"))
    );
}

#[test]
fn compile_close_error_comes_before_open_error() {
    assert_eq!(
        Err(CompileError::RSQBMismatch(0)),
        compile(&tokenize("][["))
    );
}

#[test]
fn compile_clear_and_move() {
    assert_eq!(
        Ok(vec![MOVPTR(2), SETZERO, MOVPTR(-2), MULINTO(1, 2)]),
        compile(&tokenize(">>[-]<<[->>+<<]"))
    );
}

#[test]
fn compile_twice_gives_the_same() {
    let tokens = tokenize("++[>+[-]<-]>[>>]<[->+<].,");
    assert_eq!(compile(&tokens), compile(&tokens));
}

#[test]
fn compile_leaves_no_placeholder() {
    let insts = compile(&tokenize("+[>[.]<[,[.]]-]")).unwrap();
    for (at, inst) in insts.iter().enumerate() {
        match inst {
            JZ(to) => assert_eq!(insts[to - 1], JNZ(at + 1)),
            JNZ(to) => assert_eq!(insts[to - 1], JZ(at + 1)),
            _ => (),
        }
    }
}

#[test]
fn fold_tail_knows_the_shapes() {
    assert_eq!(fold_tail(&vec![PUTC, JZ(0), ADD(1)]), Some((SETZERO, 2)));
    assert_eq!(fold_tail(&vec![JZ(0), MOVPTR(-7)]), Some((FINDZERO(-7), 2)));
    assert_eq!(
        fold_tail(&vec![JZ(0), ADD(-1), MOVPTR(5), ADD(9), MOVPTR(-5)]),
        Some((MULINTO(9, 5), 5))
    );
    assert_eq!(fold_tail(&vec![JZ(0), PUTC]), None);
    assert_eq!(fold_tail(&vec![]), None);
    assert_eq!(fold_tail(&vec![ADD(1)]), None);
}

#[test]
fn close_loop_links_what_it_cannot_fold() {
    let mut insts = vec![ADD(1), JZ(0), PUTC];
    close_loop(&mut insts, 1);
    assert_eq!(insts, vec![ADD(1), JZ(4), PUTC, JNZ(2)]);
}

#[test]
fn close_loop_folds() {
    let mut insts = vec![ADD(1), JZ(0), ADD(-1)];
    close_loop(&mut insts, 1);
    assert_eq!(insts, vec![ADD(1), SETZERO]);
}
