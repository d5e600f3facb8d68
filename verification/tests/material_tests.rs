use seija::material::{process_slot_string, CompilerConfig, GLSLFuncReader};

#[test]
fn compiler_config_builders() {
    let mut config = CompilerConfig::new("render.clj");
    assert_eq!(config.script_path, "render.clj");
    assert!(config.material_paths.is_empty());
    assert_eq!(config.out_path, "");
    config.add_shader_lib_path("shaders");
    config.add_script_lib("lib1");
    config.add_script_lib("lib2");
    config.add_material_path("materials");
    config.set_shader_out("out");
    assert_eq!(config.shader_libs, vec!["shaders".to_string()]);
    assert_eq!(config.script_libs, vec!["lib1".to_string(), "lib2".to_string()]);
    assert_eq!(config.material_paths, vec!["materials".to_string()]);
    assert_eq!(config.out_path, "out");
    let d = CompilerConfig::default();
    assert_eq!(d.script_path, "");
}

#[test]
fn slot_string_splits_functions() {
    let slots = process_slot_string("vec4 color(vec2 uv) { return vec4(1.0); }\nfloat f() {if(x){}return 1.0;}");
    assert_eq!(slots.len(), 2);
    assert_eq!(slots[0].0, "color");
    assert_eq!(slots[0].1, "vec4 color(vec2 uv) { return vec4(1.0); }");
    assert_eq!(slots[1].0, "f");
    assert_eq!(slots[1].1, "float f() {if(x){}return 1.0;}");
}

#[test]
fn later_function_of_same_name_wins() {
    let slots = process_slot_string("int f() {1} int f() {2}");
    assert_eq!(slots.len(), 1);
    assert_eq!(slots[0].0, "f");
    assert_eq!(slots[0].1, "int f() {2}");
}

#[test]
fn unfinished_function_is_not_recorded() {
    let slots = process_slot_string("  void g(int a) { if (a) { ");
    assert!(slots.is_empty());
}

#[test]
fn reader_reports_end_of_body() {
    let mut reader = GLSLFuncReader::default();
    reader.reset();
    let text = "int h(){}";
    let mut ends = vec![];
    for c in text.chars() {
        ends.push(reader.on_char(c));
    }
    assert_eq!(ends, vec![false, false, false, false, false, false, false, false, true]);
}

use seija::material::slots_in_range;

#[test]
fn slot_code_brace_ranges() {
    assert!(slots_in_range("vec4 f() { return vec4(1.0); } void g() { if (a) { b(); } }"));
    assert!(slots_in_range(""));
    assert!(!slots_in_range("void f() }"));
}
