use moto::ast::{
    Array, Assignment, Atom, BinaryOperation, Block, Cell, Function, Identifier, Import, Object,
    Operator, Package, Runtime, Task, Variable,
};
use moto::parser::{
    ignore_comments_and_spaces, parse, parse_array, parse_assignment, parse_atom,
    parse_binary_operation, parse_block, parse_boolean, parse_cells, parse_function,
    parse_identifier, parse_import, parse_number, parse_object, parse_operator, parse_package,
    parse_runtime, parse_string, parse_task, parse_variable,
};

#[test]
fn test_parse_cells() {
    let input = r#"
        let x = 5;
        let y = "hello";

        task greet {
            echo "hello world"
        }:shell

        runtime dart {
            let version = "3.7.0"
            let path = "path/to/dart.exe"

            task build {
                echo "Building with dart"
                [:path] --version
                [:path] run [:file]
            }:shell
        }:moto

        block developerCredits {
            developed by incredimo for xo.rs
        }:text

        import "math.moto" as math
        "#;

    let result = parse_cells(input).unwrap();
    println!("{}, {:?}", input, result);
}

#[test]
fn test_parse_package() {
    let input = r#"
        package rust { // this is a comment
            let version = "1.0.0";

            runtime rust {
                let version = "1.0.0";
                let path = "path/to/rust.exe";

                task build {
                    echo "Building with rust"
                    [:path] --version
                    [:path] run [:file]
                }:shell
            }:moto
        }:moto
        "#;

    let (_input, result) = parse_package(input).unwrap();
    assert_eq!(
        result,
        Package {
            identifer: Identifier::new("rust"),
            children: vec![
                Cell::Assignment(Assignment::new("version", Atom::string("1.0.0"))),
                Cell::Runtime(Runtime {
                    identifer: Identifier::new("rust"),
                    children: vec![
                        Cell::Assignment(Assignment::new("version", Atom::string("1.0.0"))),
                        Cell::Assignment(Assignment::new("path", Atom::string("path/to/rust.exe"))),
                        Cell::Task(Task {
                            identifer: Identifier::new("build"),
                            body: String::from(
                                "echo \"Building with rust\"\n                    [:path] --version\n                    [:path] run [:file]"
                            ),
                            runtime: Identifier::new("shell")
                        })
                    ],
                    runtime: Identifier::new("moto")
                })
            ],
            runtime: Identifier::new("moto")
        }
    );
}

#[test]
fn test_comments_and_spaces() {
    let input = r#"
        // this is a comment
        /* this is a block comment */
        "#;

    let result = ignore_comments_and_spaces(input).unwrap();
    assert_eq!(result, ("", ""));
}

#[test]
fn test_ignore_comments_everywhere() {
    let input = r#"
    // this is a comment
        package rust { // this is a comment
            let version = "1.0.0";  // this is a comment
            runtime rust { // this is a comment
                let version = "1.0.0"; // this is a comment
                let path = "path/to/rust.exe"; // this is a comment
                task build {
                    echo "Building with rust"
                    [:path] --version 
                    [:path] run [:file] 
                }:shell // this is a comment
            }:moto // this is a comment
        }:moto
        "#;

    let result = parse_package(input).unwrap();
    println!("{}", result.0);
    println!("{:?}", result.1);

    let input = r#"
    
// moto script v2.0
// moto scripts are written in a simple language that is easy to understand and write
// a moto script is broken down into a collection of cells. cells are the basic building blocks of a moto script
// a cell can be a package,runtime or a task
// a task is a sequence of commands that are executed in order one line at a time using the runtime specified at its tail


task greet {
    echo "hello world"
}:ps

// tasks can be defined in any runtime , provided the runtime's definition is available to the moto runtime
// let's define a task in the dart runtime
task greet_from_dart {
    print("hello world");
}:dart

// a runtime is a collection of tasks and variables that are used to execute a task
"#;
    let result = parse_cells(input).unwrap();
    println!("{}", result.0);
    for cell in result.1 {
        println!("{:?}", cell);
    }
}

#[test]
fn test_parse_assignment() {
    let input = r#"
        let x = 5; // this is a comment
        let y = "hello";
        let z = true;
        "#;

    let (input, result) = parse_assignment(input).unwrap();
    assert_eq!(
        result,
        Assignment {
            identifier: Identifier("x".to_string()),
            value: Atom::Number(5)
        }
    );

    let (input, result) = parse_assignment(input).unwrap();
    assert_eq!(
        result,
        Assignment {
            identifier: Identifier("y".to_string()),
            value: Atom::String("hello".to_string())
        }
    );

    let (_input, result) = parse_assignment(input).unwrap();
    assert_eq!(
        result,
        Assignment {
            identifier: Identifier::new("z"),
            value: Atom::Boolean(true)
        }
    );
}

#[test]
fn test_parse_task() {
    let input = r#"
        task greet {echo "hello world"}:shell
        "#;

    let (_input, result) = parse_task(input).unwrap();
    assert_eq!(
        result,
        Task {
            identifer: Identifier::new("greet"),
            body: String::from("echo \"hello world\""),
            runtime: Identifier::new("shell")
        }
    );

    let input = r#"task greet {
            print("hello ") [:name]
        }:dart"#;

    let (_input, result) = parse_task(input).unwrap();

    assert_eq!(
        result,
        Task {
            identifer: Identifier::new("greet"),
            body: String::from("print(\"hello \") [:name]"),
            runtime: Identifier::new("dart")
        }
    );
}

#[test]
fn test_parse_runtime() {
    let input = r#"
        runtime dart { // this is a comment
            let version = "3.7.0";
            let path = "path/to/dart.exe";

            task build {
                echo "Building with dart" 
                [:path] --version [:path] 
                run [:file] }:shell 
            }:moto
        "#;

    let (_input, result) = parse_runtime(input).unwrap();
    assert_eq!(
        result,
        Runtime {
            identifer: Identifier::new("dart"),
            children: vec![
                Cell::Assignment(Assignment::new("version", Atom::string("3.7.0"))),
                Cell::Assignment(Assignment {
                    identifier: Identifier::new("path"),
                    value: Atom::string("path/to/dart.exe")
                }),
                Cell::Task(Task {
                    identifer: Identifier::new("build"),
                    body: String::from(
                        "echo \"Building with dart\" \n                [:path] --version [:path] \n                run [:file]".to_string()
                    ),
                    runtime: Identifier::new("shell")
                })
            ],
            runtime: Identifier::new("moto")
        }
    );
}

#[test]
fn test_parse_block() {
    let input = r#"
        block developerCredits { developed by incredimo for xo.rs }:text // this is a comment
        "#;

    let (_input, result) = parse_block(input).unwrap();
    assert_eq!(
        result,
        Block::new("developerCredits", "developed by incredimo for xo.rs", "text")
    );
}

#[test]
fn test_parse_import() {
    let input = r#"
        import "math.moto" as math // this is a comment
        "#;

    let (_input, result) = parse_import(input).unwrap();
    assert_eq!(result, Import::new("math.moto", "math"));
}

#[test]
fn test_parse_identifier() {
    let input = r#"x"#;
    let (_input, result) = parse_identifier(input).unwrap();
    assert_eq!(result, Identifier::new("x"));

    let input = r#"projectName"#;
    let (_input, result) = parse_identifier(input).unwrap();
    assert_eq!(result, Identifier::new("projectName"));

    let input = r#"project_name"#;
    let (_input, result) = parse_identifier(input).unwrap();
    assert_eq!(result, Identifier::new("project_name"));

    let input = r#"
        project_name
        "#;
    let (_input, result) = parse_identifier(input).unwrap();
    assert_eq!(result, Identifier::new("project_name"));
}

#[test]
fn test_parse_atom() {
    let input = r#"5"#;
    let (_input, result) = parse_atom(input).unwrap();
    assert_eq!(result, Atom::Number(5));

    let input = r#""hello""#;
    let (_input, result) = parse_atom(input).unwrap();
    assert_eq!(result, Atom::String("hello".to_string()));

    let input = r#"true"#;
    let (_input, result) = parse_atom(input).unwrap();
    assert_eq!(result, Atom::Boolean(true));

    let input = r#"[1,2,3]"#;
    let (_input, result) = parse_atom(input).unwrap();
    assert_eq!(
        result,
        Atom::Array(Box::new(Array {
            values: vec![Atom::Number(1), Atom::Number(2), Atom::Number(3)]
        }))
    );

    let input = r#"{a:1, b:2}"#;
    let (_input, result) = parse_atom(input).unwrap();
    assert_eq!(
        result,
        Atom::Object(Box::new(Object {
            values: vec![
                ("a".to_string(), Atom::Number(1)),
                ("b".to_string(), Atom::Number(2))
            ]
        }))
    );
}

#[test]
fn test_parse_number() {
    let input = r#"5"#;
    let (_input, result) = parse_number(input).unwrap();
    assert_eq!(result, 5);
}

#[test]
fn test_parse_string() {
    let input = r#""hello""#;
    let (_input, result) = parse_string(input).unwrap();
    assert_eq!(result, "hello".to_string());
}

#[test]
fn test_parse_boolean() {
    let input = r#"true"#;
    let (_input, result) = parse_boolean(input).unwrap();
    assert_eq!(result, true);

    let input = r#"false"#;
    let (_input, result) = parse_boolean(input).unwrap();
    assert_eq!(result, false);
}

#[test]
fn test_parse_array() {
    let input = r#"[1,2,3]"#;
    let (_input, result) = parse_array(input).unwrap();
    assert_eq!(
        result,
        Array {
            values: vec![Atom::Number(1), Atom::Number(2), Atom::Number(3)]
        }
    );
}

#[test]
fn test_parse_object() {
    let input = r#"{a:1, b:2}"#;
    let (_input, result) = parse_object(input).unwrap();
    assert_eq!(
        result,
        Object {
            values: vec![
                ("a".to_string(), Atom::Number(1)),
                ("b".to_string(), Atom::Number(2))
            ]
        }
    );
}

#[test]
fn test_parse_binary_operation() {
    let input = r#"5 + 5"#;
    let (_input, result) = parse_binary_operation(input).unwrap();
    assert_eq!(
        result,
        BinaryOperation {
            left: Atom::Number(5),
            operator: Operator {
                value: "+".to_string()
            },
            right: Atom::Number(5)
        }
    );
}

#[test]
fn test_parse_operator() {
    let input = r#"+"#;
    let (_input, result) = parse_operator(input).unwrap();
    assert_eq!(
        result,
        Operator {
            value: "+".to_string()
        }
    );
}

#[test]
fn test_parse_variable() {
    let input = r#"[:name]"#;
    let (_input, result) = parse_variable(input).unwrap();
    assert_eq!(result, Variable::new("name", Atom::Null));

    let input = r#"[:x=5]"#;
    let (_input, result) = parse_variable(input).unwrap();
    assert_eq!(result, Variable::new("x", Atom::Number(5)));

    let input = r#"[:x="hello"]"#;
    let (_input, result) = parse_variable(input).unwrap();
    assert_eq!(result, Variable::new("x", Atom::string("hello")));

    let input = r#"[:x=true]"#;
    let (_input, result) = parse_variable(input).unwrap();
    assert_eq!(result, Variable::new("x", Atom::Boolean(true)));
}

#[test]
fn test_parse_function() {
    let input = r#"[:print("hello world")]"#;
    let (_input, result) = parse_function(input).unwrap();
    assert_eq!(
        result,
        Function::new("print", vec![Atom::String("hello world".to_string())])
    );
}

#[test]
fn two_cells_from_a_short_script() {
    let input = "let x = 5;\ntask greet { echo \"hello\" }:shell\n";
    let cells = parse(input).unwrap();
    assert_eq!(
        cells,
        vec![
            Cell::Assignment(Assignment::new("x", Atom::Number(5))),
            Cell::Task(Task::new("greet", "echo \"hello\"", "shell")),
        ]
    );
}

#[test]
fn comments_leave_the_tree_unchanged() {
    let plain = "let x = {a:1, b:2};\ntask greet { echo \"hello\" }:shell\n";
    let commented = "let x = {a:1, /* c */ b: // c\n 2}; // after\ntask greet /* before */ { echo \"hello\" }:shell\n";
    let with_line_comment = "let x = {a:1,b:2}; /* after */ task greet // before\n{ echo \"hello\" }:shell";
    assert_eq!(parse(plain).unwrap(), parse(commented).unwrap());
    assert_eq!(parse(plain).unwrap(), parse(with_line_comment).unwrap());
}

#[test]
fn bodies_keep_their_lines() {
    let (_, t) = parse_task("task t {\n  cd foo\n  make  \"a  b\"\n}:shell").unwrap();
    assert_eq!(t.body, "cd foo\n  make  \"a  b\"");
    let (_, b) = parse_block("block b {\u{a0} x \u{3000}}:text").unwrap();
    assert_eq!(b.body, "x");
}

#[test]
fn unclosed_task_is_an_error() {
    assert!(parse_task("task greet { echo \"hello\"").is_err());
    assert!(parse_task("task greet { echo }").is_err());
    assert_eq!(parse("task greet { echo").unwrap_err().position, 0);
}

#[test]
fn trailing_garbage_stops_the_cells() {
    let (rest, cells) = parse_cells("let x = 1; ???").unwrap();
    assert_eq!(cells.len(), 1);
    assert_eq!(rest, "???");
    assert_eq!(parse("let x = 1; ???").unwrap_err().position, 11);
}

#[test]
fn array_and_object_literals() {
    let (_, a) = parse_atom("[1,2,3]").unwrap();
    assert_eq!(a, Atom::array(vec![Atom::Number(1), Atom::Number(2), Atom::Number(3)]));
    let (_, o) = parse_atom("{a:1,b:2}").unwrap();
    assert_eq!(
        o,
        Atom::object(vec![("a".to_string(), Atom::Number(1)), ("b".to_string(), Atom::Number(2))])
    );
    let (_, e) = parse_atom("[ ]").unwrap();
    assert_eq!(e, Atom::array(vec![]));
}

#[test]
fn numbers_must_fit_in_sixty_four_bits() {
    assert_eq!(parse_number("18446744073709551615").unwrap().1, u64::MAX);
    assert!(parse_number("18446744073709551616").is_err());
    assert!(parse_number("x1").is_err());
}

#[test]
fn binary_operations_group_to_the_right() {
    let (rest, a) = parse_atom("1 + 2 * 3;").unwrap();
    assert_eq!(rest, ";");
    assert_eq!(
        a,
        Atom::binary_operation(
            Atom::Number(1),
            "+",
            Atom::binary_operation(Atom::Number(2), "*", Atom::Number(3))
        )
    );
    let (_, op) = parse_operator(">=").unwrap();
    assert_eq!(op.value, ">=");
}

#[test]
fn function_atoms_and_errors() {
    let (_, f) = parse_atom("[:greet(\"a\", 1)]").unwrap();
    assert_eq!(
        f,
        Atom::Function(Box::new(Function::new("greet", vec![Atom::string("a"), Atom::Number(1)])))
    );
    assert!(parse_atom("?").is_err());
    assert!(parse_string("\"open").is_err());
    assert!(parse_boolean("maybe").is_err());
}

#[test]
fn packages_and_imports_in_a_script() {
    let (rest, p) = parse_package("package tools { import \"a.moto\" as a block b { x }:text }:moto").unwrap();
    assert_eq!(rest, "");
    assert_eq!(p.imports(), vec![Import::new("a.moto", "a")]);
    assert_eq!(p.blocks(), vec![Block::new("b", "x", "text")]);
}
