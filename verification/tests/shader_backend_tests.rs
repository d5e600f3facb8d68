use seija::material::shader_name_parts;
use seija::shader_backend::{
    push_decimal, upper_first_ascii, write_ubo_uniform, write_ubo_uniform_prop, ArrayUniformInfo, BackendItem,
    MemUniformInfo, RawUniformInfo, RenderInfo, SeijaShaderBackend, ShaderTask, TextureIndex, TexturePropInfo,
    UniformInfo, UniformType,
};

fn raw(name: &str, typ: UniformType, size: usize) -> MemUniformInfo {
    MemUniformInfo::Raw(RawUniformInfo { name: name.to_string(), typ, size })
}

fn ubo(name: &str, sort: usize, backends: &[&str], props: Vec<MemUniformInfo>) -> UniformInfo {
    UniformInfo {
        name: name.to_string(),
        sort,
        props,
        textures: vec![],
        backends: backends.iter().map(|b| b.to_string()).collect(),
    }
}

fn task(backends: &[&str]) -> ShaderTask {
    ShaderTask {
        pkg_name: "core".to_string(),
        shader_name: "pbr".to_string(),
        macros: vec![],
        backends: backends.iter().map(|b| b.to_string()).collect(),
        prop_def: vec![],
        tex_props: vec![],
        slots: vec![],
    }
}

#[test]
fn decimal_and_capitals() {
    let mut s = String::new();
    push_decimal(&mut s, 0);
    s.push(' ');
    push_decimal(&mut s, 1234);
    assert_eq!(s, "0 1234");
    assert_eq!(upper_first_ascii("view"), "View");
    assert_eq!(upper_first_ascii("View"), "View");
    assert_eq!(upper_first_ascii("écran"), "écran");
    assert_eq!(upper_first_ascii(""), "");
}

#[test]
fn uniform_prop_lines() {
    let mut s = String::new();
    if let MemUniformInfo::Raw(r) = raw("color", UniformType::Float4, 1) {
        write_ubo_uniform_prop(&r, &mut s);
    }
    if let MemUniformInfo::Raw(r) = raw("weights", UniformType::Float, 4) {
        write_ubo_uniform_prop(&r, &mut s);
    }
    assert_eq!(s, "  vec4 color;\r\n  float[4] weights;\r\n");
}

#[test]
fn uniform_block_with_array_and_texture() {
    let info = UniformInfo {
        name: "ObjectBuffer".to_string(),
        sort: 0,
        props: vec![
            raw("transform", UniformType::Mat4, 1),
            MemUniformInfo::Array(ArrayUniformInfo {
                name: "lights".to_string(),
                array_size: 4,
                elem_def: vec![raw("pos", UniformType::Float3, 1)],
            }),
        ],
        textures: vec![TexturePropInfo {
            name: "shadowMap".to_string(),
            is_cubemap: false,
            str_type: "texture2D".to_string(),
        }],
        backends: vec![],
    };
    let mut s = String::new();
    write_ubo_uniform(&info, &mut s, 1);
    assert_eq!(
        s,
        "\r\nstruct ObjectBufferlights {\r\n  vec3 pos;\r\n};\r\n\r\n\
         layout(set = 1, binding = 0) uniform ObjectBuffer {\r\n  mat4 transform;\r\n  ObjectBufferlights lights[4];\r\n} _ObjectBuffer;\r\n\
         layout(set = 1, binding = 1) uniform texture2D objectbuffer_shadowMap;\r\n\
         layout(set = 1, binding = 2) uniform sampler objectbuffer_shadowMapS;\r\n"
    );
}

#[test]
fn uniforms_of_a_pass_sorted_and_numbered() {
    let mut backend = SeijaShaderBackend::new();
    backend.render_info.add_ubo_info(ubo(
        "CameraBuffer",
        1,
        &["Camera3D"],
        vec![raw("view", UniformType::Mat4, 1)],
    ));
    backend.render_info.add_ubo_info(ubo("Light", 0, &["Light"], vec![]));
    let mut t = task(&["Camera3D", "Light", "Camera3D"]);
    t.prop_def = vec![raw("color", UniformType::Float4, 1)];
    t.tex_props = vec![TextureIndex { name: "mainTexture".to_string(), index: 0, is_cube_map: false }];
    let mut s = String::new();
    backend.write_uniforms(&mut s, &t);
    assert_eq!(
        s,
        "\r\n\
         \r\nlayout(set = 1, binding = 0) uniform CameraBuffer {\r\n  mat4 view;\r\n} _CameraBuffer;\r\n\
         \r\n\
         layout(set = 2, binding = 0) uniform Material {\r\n  vec4 color;\r\n} material;\r\n\
         layout(set = 3, binding = 0) uniform texture2D tex_mainTexture;\r\n\
         layout(set = 3, binding = 1) uniform sampler tex_mainTextureSampler;\r\n"
    );
}

#[test]
fn backend_lookup_takes_last_added() {
    let mut info = RenderInfo::new();
    info.add_ubo_info(ubo("A", 0, &["x"], vec![]));
    info.add_ubo_info(ubo("B", 0, &["y", "x"], vec![]));
    assert_eq!(info.find_backend_ubo("x"), Some(1));
    assert_eq!(info.find_backend_ubo("y"), Some(1));
    assert_eq!(info.find_backend_ubo("z"), None);
}

#[test]
fn backend_accessors() {
    let mut backend = SeijaShaderBackend::new();
    backend.render_info.add_ubo_info(ubo("Camera", 0, &["Camera3D"], vec![]));
    let item = |name: &str, typ: &str, arr: Option<&str>| BackendItem {
        name: name.to_string(),
        typ: typ.to_string(),
        array_name: arr.map(|a| a.to_string()),
    };
    let mut s = String::new();
    backend.write_backend_trait_fn(&mut s, &item("view", "mat4", None), "Camera3D");
    assert_eq!(s, "\r\nmat4 getView(){return _Camera.view;}\r\n");
    let mut s = String::new();
    backend.write_backend_trait_fn(&mut s, &item("shadowMap", "texture2D", None), "Camera3D");
    assert_eq!(
        s,
        "\r\nvec4 texture_ShadowMap(vec2 uv){return texture(sampler2D(camera_shadowMap,camera_shadowMapS),uv);}\r\n\
         ivec2  textureSize_ShadowMap(){return textureSize(camera_shadowMap,0);}\r\n"
    );
    let mut s = String::new();
    backend.write_backend_trait_fn(&mut s, &item("color", "vec4", Some("lights")), "Camera3D");
    assert_eq!(s, "\r\nvec4 getLightsColor(int index){return _Camera.lights[index].color;}\r\n");
    let mut s = String::new();
    backend.write_backend_trait_fn(&mut s, &item("view", "mat4", None), "Other");
    assert_eq!(s, "\r\nmat4 getView(){}\r\n");
    let mut s = String::new();
    backend.write_backend_trait_fn(&mut s, &item("env", "cubeMap", None), "Camera3D");
    assert_eq!(s, "\r\n");
    let backends = vec![
        ("Camera3D".to_string(), vec![item("view", "mat4", None)]),
        ("Light".to_string(), vec![item("dir", "vec3", None)]),
    ];
    let mut s = String::new();
    backend.write_backend_trait(&mut s, &backends, &task(&["Missing", "Camera3D"]));
    assert_eq!(s, "\r\nmat4 getView(){return _Camera.view;}\r\n");
}

#[test]
fn slots_and_heads() {
    let backend = SeijaShaderBackend::new();
    let mut t = task(&[]);
    t.slots = vec![
        ("slot_fs_color".to_string(), "vec4 f(){}".to_string()),
        ("slot_vs_main".to_string(), "void v(){}".to_string()),
    ];
    let shader_slots = vec!["slot_vs_main".to_string(), "slot_fs_color".to_string(), "slot_vs_none".to_string()];
    let mut s = String::new();
    backend.write_vs_slots(&mut s, &shader_slots, &t);
    assert_eq!(s, "\r\nvoid v(){}\r\n");
    let mut s = String::new();
    backend.write_fs_slots(&mut s, &shader_slots, &t);
    assert_eq!(s, "\r\nvec4 f(){}\r\n");
    let mut s = String::new();
    backend.write_common_head(&mut s);
    backend.write_fs_head(&mut s);
    assert_eq!(s, "#version 450\r\n#extension GL_EXT_samplerless_texture_functions : enable\r\n");
    let v = backend.vertex_names();
    assert_eq!(v.len(), 9);
    assert_eq!(v[6], ("JOINTS".to_string(), 6, "uvec4".to_string()));
}

#[test]
fn shader_names_split_at_one_dot() {
    assert_eq!(shader_name_parts("core.pbr"), Some(("core".to_string(), "pbr".to_string())));
    assert_eq!(shader_name_parts(".x"), Some((String::new(), "x".to_string())));
    assert_eq!(shader_name_parts("a.b.c"), None);
    assert_eq!(shader_name_parts("abc"), None);
}
