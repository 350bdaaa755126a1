use minicomp::{
    combine, equation_to_code, generate_code_section, get_arguments, parse, parse_input_formula,
    set_arguments_to_different_regs, GrammarItem,
};

fn body_code(text: &str) -> Vec<u8> {
    let equations = parse_input_formula(&String::from(text)).unwrap();
    combine(equations[0].tree(), equations[0].arguments())
}

fn function_bytes(text: &str) -> Vec<u8> {
    let equations = parse_input_formula(&String::from(text)).unwrap();
    equation_to_code(&equations[0])
}

#[test]
fn identity_function_is_prologue_load_epilogue() {
    assert_eq!(
        function_bytes("f(x)=x"),
        vec![0x55, 0x48, 0x89, 0xe5, 0x48, 0x8b, 0x4d, 0x10, 0x5d, 0xc3]
    );
}

#[test]
fn every_function_has_the_frame() {
    for text in ["f(x)=x", "g(a,b)=a*b+1", "h(x)=(x+1)/(x*2)", "k(z)=7"] {
        let code = function_bytes(text);
        assert_eq!(&code[..4], &[0x55, 0x48, 0x89, 0xe5]);
        assert_eq!(&code[code.len() - 2..], &[0x5d, 0xc3]);
    }
}

#[test]
fn number_is_loaded_as_imm32() {
    assert_eq!(body_code("f(x)=2"), vec![0xb9, 0x02, 0x00, 0x00, 0x00]);
    assert_eq!(body_code("f(x)=305419896"), vec![0xb9, 0x78, 0x56, 0x34, 0x12]);
}

#[test]
fn number_keeps_its_low_four_bytes() {
    assert_eq!(body_code("f(x)=4294967298"), vec![0xb9, 0x02, 0x00, 0x00, 0x00]);
}

#[test]
fn parameter_offset_follows_parameter_order() {
    assert_eq!(body_code("f(a,b,c,d)=a"), vec![0x48, 0x8b, 0x4d, 0x10]);
    assert_eq!(body_code("f(a,b,c,d)=b"), vec![0x48, 0x8b, 0x4d, 0x18]);
    assert_eq!(body_code("f(a,b,c,d)=c"), vec![0x48, 0x8b, 0x4d, 0x20]);
    assert_eq!(body_code("f(a,b,c,d)=d"), vec![0x48, 0x8b, 0x4d, 0x28]);
    assert_eq!(body_code("f(d,c,b,a)=a"), vec![0x48, 0x8b, 0x4d, 0x28]);
}

#[test]
fn last_of_26_parameters_is_at_0xd8() {
    let text = "f(a,b,c,d,e,f,g,h,i,j,k,l,m,n,o,p,q,r,s,t,u,v,w,x,y,z)=z";
    assert_eq!(body_code(text), vec![0x48, 0x8b, 0x4d, 0xd8]);
}

#[test]
fn paren_adds_no_code() {
    assert_eq!(body_code("f(x)=((x))"), body_code("f(x)=x"));
}

#[test]
fn avg_body() {
    assert_eq!(
        body_code("avg(x,y)=(x+y)/2"),
        vec![
            0x48, 0x8b, 0x4d, 0x10, // mov rcx, [rbp+0x10]
            0x48, 0x8b, 0x45, 0x18, // mov rax, [rbp+0x18]
            0x48, 0x01, 0xc8, // add rax, rcx
            0xb9, 0x02, 0x00, 0x00, 0x00, // mov ecx, 2
            0x48, 0xf7, 0xf1, // div rcx
        ]
    );
    assert_eq!(function_bytes("avg(x,y)=(x+y)/2").len(), 25);
}

#[test]
fn quad_body_pops_once_before_the_add() {
    let code = body_code("quad(a,b,c,d)=a*b+c*d");
    assert_eq!(
        code,
        vec![
            0x48, 0x8b, 0x45, 0x18, 0x48, 0x8b, 0x4d, 0x10, 0x48, 0xf7, 0xe1, // a*b
            0x48, 0x8b, 0x45, 0x28, 0x48, 0x8b, 0x4d, 0x20, 0x48, 0xf7, 0xe1, // c*d
            0x59, // pop rcx
            0x48, 0x01, 0xc8, // add rax, rcx
        ]
    );
    assert_eq!(&code[code.len() - 3..], &[0x48, 0x01, 0xc8]);
    assert_eq!(code.iter().filter(|&&b| b == 0x59).count(), 1);
    assert_eq!(code.iter().filter(|&&b| b == 0x50).count(), 0);
}

#[test]
fn sum_of_leaves_has_no_pop() {
    assert_eq!(
        body_code("f(x,y)=x+y"),
        vec![0x48, 0x8b, 0x4d, 0x10, 0x48, 0x8b, 0x45, 0x18, 0x48, 0x01, 0xc8]
    );
    assert_eq!(
        body_code("f(x)=x+1"),
        vec![0x48, 0x8b, 0x4d, 0x10, 0xb9, 0x01, 0x00, 0x00, 0x00, 0x48, 0x01, 0xc8]
    );
}

#[test]
fn product_emits_right_operand_first() {
    assert_eq!(
        body_code("f(x)=2*x"),
        vec![0x48, 0x8b, 0x4d, 0x10, 0xb9, 0x02, 0x00, 0x00, 0x00, 0x48, 0xf7, 0xe1]
    );
}

#[test]
fn product_with_one_composite_side_pushes() {
    assert_eq!(
        body_code("f(a)=2*2*a"),
        vec![
            0x48, 0x8b, 0x4d, 0x10, 0xb9, 0x02, 0x00, 0x00, 0x00, 0x48, 0xf7, 0xe1, // 2*a
            0xb9, 0x02, 0x00, 0x00, 0x00, // mov ecx, 2
            0x48, 0xf7, 0xe1, // mul rcx
            0x50, // push rax
        ]
    );
}

#[test]
fn product_with_two_composite_sides_does_not_push() {
    let code = body_code("f(a,b)=(a+1)*(b+2)");
    assert_eq!(
        code,
        vec![
            0x48, 0x8b, 0x45, 0x18, 0xb9, 0x02, 0x00, 0x00, 0x00, 0x48, 0x01, 0xc8, // (b+2)
            0x48, 0x8b, 0x4d, 0x10, 0xb9, 0x01, 0x00, 0x00, 0x00, 0x48, 0x01, 0xc8, // (a+1)
            0x48, 0xf7, 0xe1, // mul rcx
        ]
    );
}

#[test]
fn division_emits_dividend_first() {
    assert_eq!(
        body_code("f(x,y)=x/y"),
        vec![0x48, 0x8b, 0x4d, 0x10, 0x48, 0x8b, 0x45, 0x18, 0x48, 0xf7, 0xf1]
    );
}

#[test]
fn repair_rewrites_the_third_byte_on_equal_prefixes() {
    assert_eq!(
        body_code("f(x)=2+2"),
        vec![0xb9, 0x02, 0x00, 0x00, 0x00, 0xb9, 0x02, 0x45, 0x00, 0x00, 0x48, 0x01, 0xc8]
    );
    assert_eq!(
        body_code("f(x)=2+3"),
        vec![0xb9, 0x02, 0x00, 0x00, 0x00, 0xb9, 0x03, 0x00, 0x00, 0x00, 0x48, 0x01, 0xc8]
    );
}

#[test]
fn polynomial_body() {
    let code = body_code("quad(a,b,c,d)=2*2*a+30*b+4");
    assert_eq!(
        code,
        vec![
            0x48, 0x8b, 0x4d, 0x10, 0xb9, 0x02, 0x00, 0x00, 0x00, 0x48, 0xf7, 0xe1, // 2*a
            0xb9, 0x02, 0x00, 0x00, 0x00, 0x48, 0xf7, 0xe1, 0x50, // 2*(2*a), push
            0x48, 0x8b, 0x45, 0x18, 0xb9, 0x1e, 0x00, 0x00, 0x00, 0x48, 0xf7, 0xe1, // 30*b
            0xb9, 0x04, 0x00, 0x00, 0x00, 0x48, 0x01, 0xc8, // + 4
            0x59, // pop rcx
            0x48, 0x01, 0xc8, // add rax, rcx
        ]
    );
}

#[test]
fn code_section_concatenates_functions_in_order() {
    let equations =
        parse_input_formula(&String::from("avg(x,y)=(x+y)/2; f(x)=x")).unwrap();
    let mut expected = equation_to_code(&equations[0]);
    expected.extend(equation_to_code(&equations[1]));
    assert_eq!(generate_code_section(&equations), expected);
    assert_eq!(generate_code_section(&equations).len(), 35);
    assert_eq!(generate_code_section(&Vec::new()), Vec::<u8>::new());
}

#[test]
fn get_arguments_gives_both_tags() {
    let tree = parse(&String::from("x*(y+1)")).unwrap();
    let (left, right) = get_arguments(&tree);
    assert_eq!(*left, GrammarItem::Arg('x'));
    assert_eq!(*right, GrammarItem::Paren);
}

#[test]
fn two_parameters_are_placed_in_different_registers() {
    let tree = parse(&String::from("x+y")).unwrap();
    assert_eq!(
        set_arguments_to_different_regs(&tree, &vec![0x18], &vec![0x10]),
        (vec![0x48, 0x8b, 0x45, 0x18], vec![0x48, 0x8b, 0x4d, 0x10])
    );
}

#[test]
fn a_lone_parameter_is_placed_in_rax() {
    let right = parse(&String::from("2*y")).unwrap();
    assert_eq!(
        set_arguments_to_different_regs(&right, &vec![0x18], &vec![0xb9, 2, 0, 0, 0]),
        (vec![0xb9, 2, 0, 0, 0], vec![0x48, 0x8b, 0x45, 0x18])
    );
    let left = parse(&String::from("x*2")).unwrap();
    assert_eq!(
        set_arguments_to_different_regs(&left, &vec![0xb9, 2, 0, 0, 0], &vec![0x10]),
        (vec![0x48, 0x8b, 0x45, 0x10], vec![0xb9, 2, 0, 0, 0])
    );
}

#[test]
fn other_operands_are_placed_as_they_are() {
    let tree = parse(&String::from("(x)+3")).unwrap();
    assert_eq!(
        set_arguments_to_different_regs(&tree, &vec![1, 2], &vec![3, 4, 5]),
        (vec![1, 2], vec![3, 4, 5])
    );
}
