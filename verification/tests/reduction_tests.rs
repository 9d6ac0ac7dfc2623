use std::rc::Rc;

use walc::codegen::lambda::{bit, generate_core_definitions, list, memory, number as num, select, table, var, Expr, LetExprBuilder};
use walc::codegen::runtime::math::arithmetic::add;
use walc::codegen::runtime::RuntimeGenerator;

/// A term of the WALC text format.
enum T {
    Var(String),
    Abs(String, Rc<T>),
    App(Rc<T>, Rc<T>),
}

fn parse(text: &[u8], pos: &mut usize) -> Rc<T> {
    while text[*pos] == b' ' {
        *pos += 1;
    }
    match text[*pos] {
        b'[' => {
            *pos += 1;
            let x = name(text, pos);
            let body = parse(text, pos);
            assert_eq!(text[*pos], b']');
            *pos += 1;
            Rc::new(T::Abs(x, body))
        }
        b'(' => {
            *pos += 1;
            let f = parse(text, pos);
            let a = parse(text, pos);
            while text[*pos] == b' ' {
                *pos += 1;
            }
            assert_eq!(text[*pos], b')');
            *pos += 1;
            Rc::new(T::App(f, a))
        }
        _ => Rc::new(T::Var(name(text, pos))),
    }
}

fn name(text: &[u8], pos: &mut usize) -> String {
    while text[*pos] == b' ' {
        *pos += 1;
    }
    let start = *pos;
    while text[*pos].is_ascii_alphanumeric() || text[*pos] == b'_' {
        *pos += 1;
    }
    String::from_utf8(text[start..*pos].to_vec()).unwrap()
}

/// A term with the values of its free names.
#[derive(Clone)]
struct Closure {
    term: Rc<T>,
    env: Env,
}

#[derive(Clone)]
enum Env {
    Empty,
    Bind(String, Rc<Closure>, Rc<Env>),
}

fn lookup(env: &Env, x: &str) -> Option<Rc<Closure>> {
    let mut e = env;
    loop {
        match e {
            Env::Empty => return None,
            Env::Bind(y, c, rest) => {
                if y == x {
                    return Some(c.clone());
                }
                e = rest;
            }
        }
    }
}

/// Reduces a closure by normal-order beta reduction to its weak head: a free name applied to
/// arguments, or an abstraction.
fn whnf(c: Closure) -> (Result<String, Closure>, Vec<Rc<Closure>>) {
    let mut term = c.term;
    let mut env = c.env;
    let mut stack: Vec<Rc<Closure>> = Vec::new();
    loop {
        match &*term.clone() {
            T::Var(x) => match lookup(&env, x) {
                Some(c) => {
                    term = c.term.clone();
                    env = c.env.clone();
                }
                None => return (Ok(x.clone()), stack),
            },
            T::Abs(x, body) => match stack.pop() {
                Some(arg) => {
                    env = Env::Bind(x.clone(), arg, Rc::new(env));
                    term = body.clone();
                }
                None => return (Err(Closure { term, env }), stack),
            },
            T::App(f, a) => {
                stack.push(Rc::new(Closure { term: a.clone(), env: env.clone() }));
                term = f.clone();
            }
        }
    }
}

/// What a term reduces to under the core definitions, where that is a free name.
fn value_under_core(body: Expr) -> String {
    let mut b = LetExprBuilder::new();
    generate_core_definitions(&mut b);
    let text = b.build_in(body).to_text();
    let mut pos = 0;
    let term = parse(text.as_bytes(), &mut pos);
    let (head, args) = whnf(Closure { term, env: Env::Empty });
    assert!(args.is_empty());
    head.unwrap_or_else(|_| panic!("not a name"))
}

/// The 16 bits of an index, the most significant first.
fn index(k: u16) -> Expr {
    list::from((0..16).rev().map(|i| bit((k >> i) & 1 == 1)).collect())
}

fn tree() -> Expr {
    table::from(vec![var("a"), var("b"), var("c")])
}

#[test]
fn a_tree_gives_back_its_items() {
    assert_eq!(value_under_core(table::index(tree(), index(0))), "a");
    assert_eq!(value_under_core(table::index(tree(), index(2))), "c");
}

#[test]
fn a_read_after_a_write_gives_back_what_was_written() {
    let written = table::insert(tree(), index(1), var("v"));
    assert_eq!(value_under_core(table::index(written, index(1))), "v");
    // Into a slot past the items, too
    let written = table::insert(tree(), index(0xfff0), var("w"));
    assert_eq!(value_under_core(table::index(written, index(0xfff0))), "w");
}

#[test]
fn a_write_leaves_the_other_slots_alone() {
    let written = table::insert(tree(), index(1), var("v"));
    assert_eq!(value_under_core(table::index(written, index(0))), "a");
    let written = table::insert(tree(), index(1), var("v"));
    assert_eq!(value_under_core(table::index(written, index(2))), "c");
    let twice = table::insert(table::insert(tree(), index(2), var("v")), index(0), var("w"));
    assert_eq!(value_under_core(table::index(twice, index(2))), "v");
}

/// The `width` bits of a number, the lowest first.
fn number(n: u64, width: u32) -> Expr {
    list::from((0..width).map(|i| bit((n >> i) & 1 == 1)).collect())
}

/// The value of the list of bits that `ADD` gives for two numbers, read bit by bit.
fn sum_by_add(x: u64, y: u64, width: u32) -> u64 {
    let mut value = 0;
    for k in 0..width {
        let mut b = LetExprBuilder::new();
        generate_core_definitions(&mut b);
        let mut rt = RuntimeGenerator::new();
        let mut rest = add(&mut rt, number(x, width), number(y, width));
        rt.generate(&mut b);
        for _ in 0..k {
            rest = list::get_tail(rest);
        }
        let probe = select(list::get_head(rest), var("zero"), var("one"));
        let text = b.build_in(probe).to_text();
        let mut pos = 0;
        let term = parse(text.as_bytes(), &mut pos);
        let (head, args) = whnf(Closure { term, env: Env::Empty });
        assert!(args.is_empty());
        if head.unwrap_or_else(|_| panic!("not a name")) == "one" {
            value |= 1 << k;
        }
    }
    value
}

#[test]
fn add_gives_the_sum_modulo_the_width() {
    assert_eq!(sum_by_add(5, 9, 8), 14);
    assert_eq!(sum_by_add(200, 100, 8), 44);
    assert_eq!(sum_by_add(0xffff_ffff, 1, 32), 0);
    assert_eq!(sum_by_add(0x1234_5678, 0x0fed_cba9, 32), 0x2222_2221);
}

#[test]
fn a_memory_read_after_a_write_gives_back_what_was_written() {
    let written = memory::insert(memory::new(), number(0x1234, 32), var("v"));
    assert_eq!(value_under_core(memory::index(written, number(0x1234, 32))), "v");
    let written = memory::insert(memory::new(), number(0xffff_fffe, 32), var("w"));
    assert_eq!(value_under_core(memory::index(written, number(0xffff_fffe, 32))), "w");
}

#[test]
fn a_memory_write_leaves_the_other_addresses_alone() {
    let before = memory::insert(memory::new(), number(8, 32), var("old"));
    let after = memory::insert(before, number(9, 32), var("new"));
    assert_eq!(value_under_core(memory::index(after, number(8, 32))), "old");
}

/// The bit at position `k` of a list of bits, read under the core definitions.
fn bit_at(bits: Expr, k: usize) -> bool {
    let mut rest = bits;
    for _ in 0..k {
        rest = list::get_tail(rest);
    }
    value_under_core(select(list::get_head(rest), var("zero"), var("one"))) == "one"
}

#[test]
fn rev_reverses_the_bits_and_twice_gives_them_back() {
    let reversed = |n: u64| num::reverse_bits(number(n, 3));
    assert_eq!((0..3).map(|k| bit_at(reversed(1), k)).collect::<Vec<_>>(), vec![false, false, true]);
    assert_eq!((0..3).map(|k| bit_at(reversed(6), k)).collect::<Vec<_>>(), vec![true, true, false]);
    let twice = |n: u64| num::reverse_bits(num::reverse_bits(number(n, 3)));
    assert_eq!((0..3).map(|k| bit_at(twice(6), k)).collect::<Vec<_>>(), vec![false, true, true]);
}
