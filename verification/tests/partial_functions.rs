use partial_fn::{Clause, ClauseList, PartialFn};

type Pattern<A, X> = Box<dyn Fn(&A) -> Option<X>>;
type Guard<X> = Box<dyn Fn(&X) -> bool>;
type Transform<X, B> = Box<dyn Fn(X) -> B>;
type Arm<A, X, B> = Clause<A, X, B, Pattern<A, X>, Guard<X>, Transform<X, B>>;
type Arms<A, X, B> = ClauseList<A, X, B, Pattern<A, X>, Guard<X>, Transform<X, B>>;

#[derive(Debug, Clone)]
enum Test {
    Foo(i32),
    Bar(f32),
    Baz(bool),
}

#[derive(Debug, Clone)]
enum Captured {
    Int(i32),
    Float(f32),
}

fn arm<A, X, B>(
    patterns: Vec<Pattern<A, X>>,
    guard: Option<Guard<X>>,
    transform: Transform<X, B>,
) -> Arm<A, X, B> {
    Clause::new(patterns, guard, transform)
}

fn literal<A: PartialEq + 'static>(wanted: A) -> Pattern<A, ()> {
    Box::new(move |a: &A| if *a == wanted { Some(()) } else { None })
}

fn within(low: i32, high: i32) -> Pattern<i32, i32> {
    Box::new(move |a: &i32| if low <= *a && *a <= high { Some(*a) } else { None })
}

fn foo() -> Pattern<Test, i32> {
    Box::new(|t: &Test| match t {
        Test::Foo(a) => Some(*a),
        _ => None,
    })
}

fn defined_with<A, B, E, D>(pf: &PartialFn<A, B, E, D>, lhs: A, rhs: B)
where
    A: Clone,
    B: PartialEq,
    E: Fn(A) -> Option<B>,
    D: Fn(A) -> bool,
{
    assert!(
        pf.is_defined_at(lhs.clone())
            && pf.call(lhs.clone()).is_some()
            && pf.call(lhs) == Some(rhs)
    );
}

fn undefined_at<A, B, E, D>(pf: &PartialFn<A, B, E, D>, lhs: A)
where
    A: Clone,
    E: Fn(A) -> Option<B>,
    D: Fn(A) -> bool,
{
    assert!(!pf.is_defined_at(lhs.clone()) && pf.call(lhs).is_none());
}

#[test]
fn handles_basic_functionality() {
    let arms: Arms<&'static str, (), i32> = ClauseList::new(vec![
        arm(vec![literal("foo")], None, Box::new(|_| 1)),
        arm(vec![literal("bar")], None, Box::new(|_| 2)),
    ]);
    let (eval, defined) = arms.compile();
    let pf = PartialFn::new(eval, defined);

    defined_with(&pf, "foo", 1);
    defined_with(&pf, "bar", 2);
    undefined_at(&pf, "baz");
}

#[test]
fn handles_basic_functionality_with_default_case() {
    let arms: Arms<&'static str, (), i32> = ClauseList::new(vec![
        arm(vec![literal("foo")], None, Box::new(|_| 1)),
        arm(vec![literal("bar")], None, Box::new(|_| 2)),
        arm(vec![Box::new(|_: &&'static str| Some(()))], None, Box::new(|_| 3)),
    ]);
    let (eval, defined) = arms.compile();
    let pf = PartialFn::new(eval, defined);

    defined_with(&pf, "foo", 1);
    defined_with(&pf, "bar", 2);
    defined_with(&pf, "baz", 3);
}

#[test]
fn handles_variable_capture() {
    let arms: Arms<Test, Captured, i32> = ClauseList::new(vec![
        arm(
            vec![Box::new(|t: &Test| match t {
                Test::Foo(a) => Some(Captured::Int(*a)),
                _ => None,
            })],
            None,
            Box::new(|x| match x {
                Captured::Int(a) => a,
                Captured::Float(_) => unreachable!(),
            }),
        ),
        arm(
            vec![Box::new(|t: &Test| match t {
                Test::Bar(b) => Some(Captured::Float(*b)),
                _ => None,
            })],
            None,
            Box::new(|_b| 1),
        ),
    ]);
    let (eval, defined) = arms.compile();
    let pf = PartialFn::new(eval, defined);

    defined_with(&pf, Test::Foo(2), 2);
    defined_with(&pf, Test::Bar(1.0), 1);
    undefined_at(&pf, Test::Baz(true));
}

#[test]
fn handles_non_local_variable_in_expression() {
    let c = 1;

    let arms: Arms<Test, i32, i32> =
        ClauseList::new(vec![arm(vec![foo()], None, Box::new(move |a| a + c))]);
    let (eval, defined) = arms.compile();
    let pf = PartialFn::new(eval, defined);

    defined_with(&pf, Test::Foo(1), 2);
    undefined_at(&pf, Test::Bar(1.0));
}

#[test]
fn handles_pattern_guards() {
    let c1 = 1;
    let c2 = 2;

    let arms: Arms<Test, i32, i32> = ClauseList::new(vec![
        arm(vec![foo()], Some(Box::new(|a: &i32| *a == 1)), Box::new(move |a| a + c1)),
        arm(vec![foo()], Some(Box::new(|a: &i32| *a == 2)), Box::new(move |a| a + c2)),
    ]);
    let (eval, defined) = arms.compile();
    let pf = PartialFn::new(eval, defined);

    defined_with(&pf, Test::Foo(1), 2);
    defined_with(&pf, Test::Foo(2), 4);
    undefined_at(&pf, Test::Foo(3));
    undefined_at(&pf, Test::Bar(1.0));
}

#[test]
fn handles_pattern_alternation() {
    let arms: Arms<i32, (), &'static str> = ClauseList::new(vec![
        arm(vec![literal(1), literal(2)], None, Box::new(|_| "foo")),
        arm(vec![literal(3)], None, Box::new(|_| "bar")),
    ]);
    let (eval, defined) = arms.compile();
    let pf = PartialFn::new(eval, defined);

    defined_with(&pf, 1, "foo");
    defined_with(&pf, 2, "foo");
    defined_with(&pf, 3, "bar");
    undefined_at(&pf, 4);
}

#[test]
fn handles_inclusive_range() {
    let arms: Arms<i32, i32, &'static str> =
        ClauseList::new(vec![arm(vec![within(1, 3)], None, Box::new(|_| "foo"))]);
    let (eval, defined) = arms.compile();
    let pf = PartialFn::new(eval, defined);

    defined_with(&pf, 1, "foo");
    defined_with(&pf, 2, "foo");
    defined_with(&pf, 3, "foo");
    undefined_at(&pf, 4);
}

#[test]
fn handles_pattern_binding() {
    let arms: Arms<&'static str, &'static str, &'static str> = ClauseList::new(vec![arm(
        vec![Box::new(|a: &&'static str| if *a == "foo" { Some(*a) } else { None })],
        None,
        Box::new(|a| a),
    )]);
    let (eval, defined) = arms.compile();
    let pf = PartialFn::new(eval, defined);

    defined_with(&pf, "foo", "foo");
    undefined_at(&pf, "bar");
}

#[test]
fn handles_all_of_it_mixed_together() {
    let arms: Arms<i32, i32, i32> = ClauseList::new(vec![
        arm(
            vec![within(1, 10), within(21, 30)],
            Some(Box::new(|a: &i32| *a % 2 == 0)),
            Box::new(|a| a / 2),
        ),
        arm(
            vec![within(11, 20), within(31, 40)],
            Some(Box::new(|a: &i32| *a % 2 == 1)),
            Box::new(|a| a),
        ),
    ]);
    let (eval, defined) = arms.compile();
    let pf = PartialFn::new(eval, defined);

    undefined_at(&pf, 1);
    defined_with(&pf, 2, 1);
    defined_with(&pf, 11, 11);
    undefined_at(&pf, 12);
    undefined_at(&pf, 21);
    defined_with(&pf, 22, 11);
    defined_with(&pf, 31, 31);
    undefined_at(&pf, 32);
}
