use seija::ffi_file::{DataType, EnumDefine, FFIFile, Stmt};
use seija::parser::{FFIFileParser, ParseError, Token};

const SAMPLE: &str = r#"typedef struct App App;
    typedef struct WindowConfig {
        float width;
        float height;
        WindowMode mode;
        bool vsync;
        struct String title;
    } WindowConfig;
   
    enum WindowMode {
        Windowed,
        BorderlessFullscreen,
        Fullscreen,
    };

    void core_add_module(uint8_t *app_ptr,String app_string);

    void app_set_fps(struct App *app_ptr, uint32_t fps);
    "#;

fn parse(code: &str, name: &str) -> FFIFile {
    let mut parser = FFIFileParser::new(code, name.to_string());
    parser.parse().unwrap()
}

#[test]
fn test_parse() {
    let code_string = SAMPLE;
    let mut parser = FFIFileParser::new(code_string, "test".into());
    let stmt = parser.parse();
    let file = stmt.unwrap();
    assert_eq!(file.name, "test");
    assert_eq!(file.stmts.len(), 5);
}

#[test]
fn sample_statements_in_order() {
    let file = parse(SAMPLE, "test");
    match &file.stmts[0] {
        Stmt::TypedefStructName(a, b) => {
            assert_eq!(a, "App");
            assert_eq!(b, "App");
        }
        other => panic!("unexpected {:?}", other),
    }
    match &file.stmts[1] {
        Stmt::TypedefStruct(name, st) => {
            assert_eq!(name, "WindowConfig");
            let names: Vec<&str> = st.items.iter().map(|i| i.name.as_str()).collect();
            assert_eq!(names, vec!["width", "height", "mode", "vsync", "title"]);
            assert_eq!(st.items[0].typ.typ, DataType::Float);
            assert_eq!(st.items[2].typ.typ, DataType::Custom("WindowMode".to_string()));
            assert_eq!(st.items[3].typ.typ, DataType::Bool);
            assert_eq!(st.items[4].typ.typ, DataType::String);
            assert!(st.items.iter().all(|i| !i.typ.is_ptr));
        }
        other => panic!("unexpected {:?}", other),
    }
    match &file.stmts[2] {
        Stmt::EnumDefine(EnumDefine { name, list }) => {
            assert_eq!(name, "WindowMode");
            let fields: Vec<(&str, Option<&str>)> =
                list.iter().map(|(n, v)| (n.as_str(), v.as_deref())).collect();
            assert_eq!(
                fields,
                vec![("Windowed", None), ("BorderlessFullscreen", None), ("Fullscreen", None)]
            );
        }
        other => panic!("unexpected {:?}", other),
    }
    match &file.stmts[3] {
        Stmt::FuncDefine(f) => {
            assert_eq!(f.name, "core_add_module");
            assert_eq!(f.ret_type.typ, DataType::Void);
            assert!(!f.ret_type.is_ptr);
            assert_eq!(f.params.len(), 2);
            assert_eq!(f.params[0].name, "app_ptr");
            assert_eq!(f.params[0].typ.typ, DataType::U8);
            assert!(f.params[0].typ.is_ptr);
            assert_eq!(f.params[1].name, "app_string");
            assert_eq!(f.params[1].typ.typ, DataType::String);
            assert!(!f.params[1].typ.is_ptr);
        }
        other => panic!("unexpected {:?}", other),
    }
    match &file.stmts[4] {
        Stmt::FuncDefine(f) => {
            assert_eq!(f.name, "app_set_fps");
            assert_eq!(f.params[0].typ.typ, DataType::Custom("App".to_string()));
            assert!(f.params[0].typ.is_ptr);
            assert_eq!(f.params[1].name, "fps");
            assert_eq!(f.params[1].typ.typ, DataType::U32);
        }
        other => panic!("unexpected {:?}", other),
    }
}

#[test]
fn cast_sym_accepts_only_symbols() {
    assert_eq!(Token::Symbol("abc".to_string()).cast_sym().unwrap(), "abc");
    match Token::Comma.cast_sym() {
        Err(ParseError::ErrToken(Token::Comma)) => {}
        other => panic!("unexpected {:?}", other),
    }
}

#[test]
fn enum_values_and_pointer_fields() {
    let code = "enum Mode { A = 1, B, };\ntypedef struct Cfg { float w; char *name; uint8_t flag; } Cfg;\nvoid set_mode(Mode m, uint32_t *ptr);\n";
    let file = parse(code, "cfg");
    assert_eq!(file.stmts.len(), 3);
    match &file.stmts[0] {
        Stmt::EnumDefine(e) => {
            assert_eq!(e.name, "Mode");
            assert_eq!(e.list.len(), 2);
            assert_eq!(e.list[0].0, "A");
            assert_eq!(e.list[0].1.as_deref(), Some("1"));
            assert_eq!(e.list[1].0, "B");
            assert_eq!(e.list[1].1, None);
        }
        other => panic!("unexpected {:?}", other),
    }
    match &file.stmts[1] {
        Stmt::TypedefStruct(name, st) => {
            assert_eq!(name, "Cfg");
            assert_eq!(st.items.len(), 3);
            assert_eq!(st.items[1].typ.typ, DataType::Custom("char".to_string()));
            assert!(st.items[1].typ.is_ptr);
            assert_eq!(st.items[2].typ.typ, DataType::U8);
        }
        other => panic!("unexpected {:?}", other),
    }
}

#[test]
fn comments_are_skipped() {
    let code = "/* block\n comment */ void f(void);\n//line\nvoid g();";
    let file = parse(code, "c");
    assert_eq!(file.stmts.len(), 2);
    match (&file.stmts[0], &file.stmts[1]) {
        (Stmt::FuncDefine(f), Stmt::FuncDefine(g)) => {
            assert_eq!(f.name, "f");
            assert_eq!(f.params.len(), 0);
            assert_eq!(g.name, "g");
            assert_eq!(g.params.len(), 0);
        }
        other => panic!("unexpected {:?}", other),
    }
}

#[test]
fn typedefs_of_types_and_function_pointers() {
    let code = "typedef uint64_t Handle;\ntypedef void (*Callback)(uint32_t code, const char *msg);";
    let file = parse(code, "t");
    assert_eq!(file.stmts.len(), 2);
    match &file.stmts[0] {
        Stmt::Typedef(t, n) => {
            assert_eq!(*t, DataType::U64);
            assert_eq!(n, "Handle");
        }
        other => panic!("unexpected {:?}", other),
    }
    match &file.stmts[1] {
        Stmt::TypeDefFuncPtr(f) => {
            assert_eq!(f.name, "Callback");
            assert_eq!(f.ret_type.typ, DataType::Void);
            assert_eq!(f.params.len(), 2);
            assert_eq!(f.params[0].name, "code");
            assert_eq!(f.params[1].name, "msg");
            assert_eq!(f.params[1].typ.typ, DataType::Custom("char".to_string()));
            assert!(f.params[1].typ.is_ptr);
        }
        other => panic!("unexpected {:?}", other),
    }
}

#[test]
fn a_failing_declaration_is_passed_over() {
    // `typedef` followed by `{` is not a declaration; parsing goes on.
    let code = "typedef { void ok();";
    let file = parse(code, "e");
    assert!(file.stmts.iter().any(|s| matches!(s, Stmt::FuncDefine(f) if f.name == "ok")));
}

#[test]
fn empty_header_has_no_declarations() {
    let file = parse("  \n ; ", "empty");
    assert_eq!(file.stmts.len(), 0);
}
