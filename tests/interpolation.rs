use moto::ast::{Atom, Cell, Function, Identifier, Task, Variable};
use moto::ctx::{
    get_function, get_runtime, get_task, get_tasks, get_variable, get_variable_or_default,
    push_cell, set_variable, variable_key, Ctx,
};
use moto::interp::{dope, find_interpolatable, resolve_text, InterpolatedString, InterpolationError, Part};
use moto::menu::{
    elapsed_rule, error_lines, filter_matches, format_elapsed_time, parse_args, truncate_line,
    truncate_interpolatable_line,
};
use moto::parser::parse;

#[test]
fn literal_text_survives_decompose() {
    let s = InterpolatedString::new("echo hello [: not closed");
    assert!(!s.is_computable());
    assert_eq!(s.decompose().to_text(), "echo hello [: not closed");
    let e = InterpolatedString::new("");
    assert_eq!(e.decompose().to_text(), "");
}

#[test]
fn compute_is_a_no_op_on_resolved_text() {
    let ctx = Ctx::empty();
    let s = InterpolatedString::new("plain text");
    let once = s.compute(&ctx);
    assert_eq!(once, s);
    assert_eq!(once.compute(&ctx), once);
}

#[test]
fn fallback_until_set() {
    let mut ctx = Ctx::empty();
    assert_eq!(dope("run [:x=default] now", &ctx).unwrap(), "run default now");
    set_variable(&mut ctx, "x", Atom::string("V"));
    assert_eq!(dope("run [:x=default] now", &ctx).unwrap(), "run V now");
}

#[test]
fn nested_fallback_is_expanded() {
    let ctx = Ctx::empty();
    assert_eq!(dope("[:x=[:y=42]]", &ctx).unwrap(), "42");
}

#[test]
fn missing_variable_without_fallback_is_empty() {
    let ctx = Ctx::empty();
    assert_eq!(dope("a[:missing]b", &ctx).unwrap(), "ab");
}

#[test]
fn lookup_ignores_case_and_spaces() {
    let mut ctx = Ctx::empty();
    set_variable(&mut ctx, "  Name ", Atom::string("Ada"));
    assert_eq!(dope("hi [:NAME]!", &ctx).unwrap(), "hi Ada!");
    assert_eq!(variable_key("  HeLLo "), "hello");
    assert_eq!(get_variable(&ctx, "name"), Some(Atom::string("Ada")));
    assert_eq!(get_variable(&ctx, "other"), None);
    assert_eq!(get_variable_or_default(&ctx, "other", Atom::Number(3)), Atom::Number(3));
}

#[test]
fn last_write_wins() {
    let mut ctx = Ctx::empty();
    set_variable(&mut ctx, "x", Atom::Number(1));
    set_variable(&mut ctx, "X", Atom::Number(2));
    assert_eq!(dope("[:x]", &ctx).unwrap(), "2");
}

#[test]
fn values_are_written_as_text() {
    let mut ctx = Ctx::empty();
    set_variable(&mut ctx, "list", Atom::array(vec![Atom::Number(1), Atom::boolean(true)]));
    set_variable(&mut ctx, "obj", Atom::object(vec![("a".to_string(), Atom::string("b"))]));
    assert_eq!(dope("[:list] [:obj]", &ctx).unwrap(), "[1, true] {a:b}");
    assert_eq!(Atom::Null.to_text(), "null");
    assert_eq!(
        Atom::binary_operation(Atom::Number(5), "+", Atom::Number(10)).to_text(),
        "5 + 10"
    );
}

#[test]
fn self_reference_is_an_error() {
    let mut ctx = Ctx::empty();
    set_variable(&mut ctx, "x", Atom::string("[:x]"));
    assert_eq!(dope("[:x]", &ctx), Err(InterpolationError { rounds: 64 }));
    assert_eq!(resolve_text("[:x]", &ctx, 3), Err(InterpolationError { rounds: 3 }));
}

#[test]
fn function_calls_resolve_to_nothing() {
    let ctx = Ctx::empty();
    assert_eq!(dope("a[:f(1, b=2)]b", &ctx).unwrap(), "ab");
}

#[test]
fn decompose_classifies_placeholders() {
    let s = InterpolatedString::new("x [:a] y [:b=c] z [:f( 1 , k=v )]");
    let d = s.decompose();
    assert!(d.is_computable());
    assert_eq!(
        d.parts,
        vec![
            Part::Text("x ".to_string()),
            Part::Variable(Variable::new("a", Atom::Null)),
            Part::Text(" y ".to_string()),
            Part::Variable(Variable::new("b", Atom::string("c"))),
            Part::Text(" z ".to_string()),
            Part::Function(Function::new(
                "f",
                vec![
                    Atom::string("1"),
                    Atom::object(vec![("k".to_string(), Atom::string("v"))])
                ]
            )),
        ]
    );
    assert_eq!(d.to_text(), "x [:a] y [:b=c] z [:f(1, {k:v})]");
}

#[test]
fn first_placeholder_position() {
    assert_eq!(find_interpolatable("Hello, [:name]!"), Some((7, 14)));
    assert_eq!(find_interpolatable("Hello, [:name"), None);
    assert_eq!(find_interpolatable("none"), None);
}

#[test]
fn registry_queries() {
    let mut ctx = Ctx::empty();
    let cells = parse(
        "task build { make }:shell runtime dart { task run { dart run }:shell }:moto",
    )
    .unwrap();
    for c in cells {
        push_cell(&mut ctx, c);
    }
    push_cell(
        &mut ctx,
        Cell::package("pkg", vec![Cell::task("deploy", "ship", "shell"), Cell::runtime("rust", "moto", vec![])]),
    );
    assert_eq!(get_task(&ctx, "build"), Some(Task::new("build", "make", "shell")));
    assert_eq!(get_task(&ctx, "deploy"), None);
    assert_eq!(get_function(&ctx, "build").unwrap().name(), "build");
    let names: Vec<String> = get_tasks(&ctx).iter().map(|t| t.name()).collect();
    assert_eq!(names, vec!["build".to_string(), "deploy".to_string()]);
    let dart = get_runtime(&ctx, "dart").unwrap();
    assert_eq!(dart.get_task("run").unwrap().get_code(), "dart run");
    assert_eq!(get_runtime(&ctx, "rust").unwrap().name(), "rust");
    assert!(get_runtime(&ctx, "go").is_none());
}

#[test]
fn cell_accessors() {
    let c = Cell::task("greet", "echo hi", "shell");
    assert_eq!(c.name(), "greet");
    assert_eq!(c.get_kind(), "task");
    assert_eq!(c.get_description(), "task greet with runtime shell");
    assert!(c.identifier_is("greet"));
    assert_eq!(c.identifier(), Some(Identifier::new("greet")));
    assert_eq!(c.get_runtime(), Some(Identifier::new("shell")));
    assert_eq!(c.get_body(), Some("echo hi".to_string()));
    let a = Cell::assignment("x", Atom::Number(5));
    assert_eq!(a.get_description(), "let x = 5");
    assert_eq!(a.get_runtime(), None);
    let p = Cell::package("p", vec![]);
    assert_eq!(p.get_description(), "package p");
    assert_eq!(Cell::import("m.moto", "m").get_description(), "import m.moto as m");
}

#[test]
fn variable_and_function_accessors() {
    let mut v = Variable::new("x", Atom::Null);
    assert!(!v.has_default());
    assert_eq!(v.get_value_or(Atom::Number(7)), Atom::Number(7));
    v.set_value(Atom::string("hi"));
    assert!(v.has_default());
    assert_eq!(v.get_value_str(), "hi");
    v.set_identifier("y");
    assert_eq!(v.name(), "y");
    let mut f = Function::new("f", vec![Atom::Number(1)]);
    f.set_arguments(vec![]);
    assert!(f.args().is_empty());
    f.set_identifier("g");
    assert_eq!(f.name(), Identifier::new("g"));
}

#[test]
fn text_helpers() {
    assert_eq!(truncate_line("   hello world  ", 5), "hello...");
    assert_eq!(truncate_line("  hi  ", 5), "hi");
    assert_eq!(
        truncate_interpolatable_line(&InterpolatedString::new(" echo [:x] "), 4),
        "echo..."
    );
    assert_eq!(format_elapsed_time(1500), "1s");
    assert_eq!(format_elapsed_time(250), "250ms");
    let rule = elapsed_rule("1s");
    assert_eq!(rule.chars().count(), 2 + 55 + 1 + 2);
    assert!(rule.ends_with("─ 1s"));
    let long: String = "a".repeat(120);
    let pieces = error_lines(&long);
    assert_eq!(pieces.len(), 3);
    assert_eq!(pieces[0].len(), 56);
    assert_eq!(pieces[2].len(), 8);
    assert_eq!(error_lines(""), vec!["".to_string()]);
    assert!(filter_matches("Build Project", "bu"));
    assert!(!filter_matches("deploy", "build"));
}

#[test]
fn command_line_arguments() {
    let args: Vec<String> = vec!["moto", "Build", "[:name=John Doe]", "extra", "[:flag]"]
        .into_iter()
        .map(|s| s.to_string())
        .collect();
    let (task, vars) = parse_args(&args);
    assert_eq!(task, "build");
    assert_eq!(vars, vec![Variable::new("name", Atom::string("John Doe"))]);
}

#[test]
fn resolve_an_interpolated_string() {
    let mut ctx = Ctx::empty();
    set_variable(&mut ctx, "who", Atom::string("[:name=world]"));
    let body = InterpolatedString::new("hello [:who]");
    assert_eq!(body.resolve(&ctx, 64).unwrap(), "hello world");
    assert_eq!(body.resolve(&ctx, 1), Err(InterpolationError { rounds: 1 }));
    assert_eq!(InterpolatedString::new("done").resolve(&ctx, 0).unwrap(), "done");
}

#[test]
fn keys_trim_unicode_white_space() {
    let mut ctx = Ctx::empty();
    set_variable(&mut ctx, "\u{3000}Name\u{a0}", Atom::string("Ada"));
    assert_eq!(dope("[:name]", &ctx).unwrap(), "Ada");
    assert_eq!(truncate_line("\u{2003}éé\u{85}", 4), "éé");
}

#[test]
fn offsets_and_widths_count_bytes() {
    assert_eq!(find_interpolatable("é[:x]"), Some((2, 6)));
    let code = "aé [:name] b";
    let (s, e) = find_interpolatable(code).unwrap();
    assert_eq!(&code[s..e], "[:name]");
    assert_eq!(truncate_line("éa", 2), "é...");
    assert_eq!(truncate_line("ééé", 3), "é...");
    assert_eq!(truncate_line("ééé", 6), "ééé");
    let long: String = "é".repeat(60);
    let pieces = error_lines(&long);
    assert_eq!(pieces.len(), 3);
    assert_eq!(pieces[0].chars().count(), 28);
    assert_eq!(pieces[0].len(), 56);
    assert_eq!(pieces[2].chars().count(), 4);
    assert_eq!(elapsed_rule("é").chars().count(), 59);
    assert_eq!(elapsed_rule("1s").chars().count(), 60);
}

#[test]
fn task_named_on_the_command_line() {
    let tasks = vec![Task::new("Build All", "make", "shell"), Task::new("deploy", "ship", "shell")];
    assert_eq!(moto::ctx::task_for_argument(&tasks, "build all"), Some(0));
    assert_eq!(moto::ctx::task_for_argument(&tasks, "deploy"), Some(1));
    assert_eq!(moto::ctx::task_for_argument(&tasks, "test"), None);
}
