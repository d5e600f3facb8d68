use seija::csharp_gen::{replace_dash, CSharpGen};
use seija::ffi_file::{DataType, DataTypeFull};
use seija::parse_gen::{IGenerator, ParseGen, ParseGenConfig};
use seija::parser::FFIFileParser;

fn config() -> ParseGenConfig {
    ParseGenConfig {
        target: "csharp".to_string(),
        header_dir: "include".to_string(),
        out_dir: "out".to_string(),
        dll_name: "native".to_string(),
    }
}

const CODE: &str = "enum Mode { A = 1, B, };\ntypedef struct Cfg { float w; char *name; uint8_t flag; } Cfg;\nvoid set_mode(Mode m, uint32_t *ptr);\n";

#[test]
fn generates_enums_structs_and_imports() {
    let mut parser = FFIFileParser::new(CODE, "my-file".to_string());
    let file = parser.parse().unwrap();
    let out = CSharpGen.on_process(&file, &config()).unwrap();
    let expected = String::new()
        + "using System.Runtime.InteropServices;\r\n"
        + "public enum Mode {\r\n"
        + "    A = 1,\r\n"
        + "    B,\r\n"
        + " };\r\n\r\n"
        + "public struct Cfg {\r\n"
        + "    public float  w;\r\n"
        + "    public [MarshalAs(UnmanagedType.LPUTF8Str)] string  name;\r\n"
        + "    public   flag;\r\n"
        + "};\r\n\r\n"
        + "public static class my_file {\r\n\r\n"
        + "    [DllImport(\"native\")]\r\n"
        + "    public static extern void set_mode(Mode m,IntPtr ptr);\r\n"
        + "\r\n"
        + "\r\n}";
    assert_eq!(out, expected);
}

#[test]
fn write_type_spellings() {
    let cases = vec![
        (DataType::Void, false, "void"),
        (DataType::Bool, false, "bool"),
        (DataType::Float, false, "float"),
        (DataType::String, false, "string"),
        (DataType::U32, false, "uint"),
        (DataType::U64, false, "ulong"),
        (DataType::U8, false, ""),
        (DataType::Custom("Vec3".to_string()), false, "Vec3"),
        (DataType::Custom("Vec3".to_string()), true, "IntPtr"),
        (DataType::Custom("char".to_string()), true, "[MarshalAs(UnmanagedType.LPUTF8Str)] string"),
        (DataType::U32, true, "IntPtr"),
    ];
    for (typ, is_ptr, expected) in cases {
        let mut out = String::from(">");
        CSharpGen::write_type(&mut out, &DataTypeFull { typ, is_ptr });
        assert_eq!(out, format!(">{}", expected));
    }
}

#[test]
fn dashes_become_underscores() {
    assert_eq!(replace_dash(&"a-b--c".to_string()), "a_b__c");
    assert_eq!(replace_dash(&"plain".to_string()), "plain");
}

#[test]
fn generation_names_each_header_file() {
    let mut gen = ParseGen::new(config());
    gen.add_source("window".to_string(), "void show();");
    gen.add_source("app-core".to_string(), "void run(uint32_t fps);");
    assert_eq!(gen.parsed_files().len(), 2);
    assert_eq!(gen.config().dll_name, "native");
    let outs = gen.generate(&CSharpGen);
    assert_eq!(outs.len(), 2);
    assert_eq!(outs[0].0, "window.cs");
    assert_eq!(outs[1].0, "app-core.cs");
    let code = outs[1].1.as_ref().unwrap();
    assert!(code.contains("public static class app_core {"));
    assert!(code.contains("public static extern void run(uint fps);"));
}
