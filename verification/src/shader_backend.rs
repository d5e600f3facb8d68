//! The GLSL that the material compiler writes around a shader: the uniform
//! blocks a shader's backends bind, the material's own uniforms and
//! textures, the accessor functions a backend offers, and the slot
//! functions a material fills in.
use vstd::prelude::*;
use crate::parser::string_eq_str;
use crate::text::{chars_of, string_from_chars};

verus! {

broadcast use vstd::string::group_string_axioms;

/// The kind of a uniform value.
#[derive(Debug, Clone, Copy, PartialEq, Eq)]
pub enum UniformType {
    Bool,
    Float,
    Float3,
    Float4,
    Int,
    UInt,
    Mat3,
    Mat4,
}

/// A uniform of plain values: its name, kind, and how many values it holds.
pub struct RawUniformInfo {
    pub name: String,
    pub typ: UniformType,
    pub size: usize,
}

/// A uniform array of structs: its name, length, and the members of each
/// element.
pub struct ArrayUniformInfo {
    pub name: String,
    pub array_size: usize,
    pub elem_def: Vec<MemUniformInfo>,
}

/// A member of a uniform block.
pub enum MemUniformInfo {
    Raw(RawUniformInfo),
    Array(ArrayUniformInfo),
}

/// A texture a uniform block binds.
pub struct TexturePropInfo {
    pub name: String,
    pub is_cubemap: bool,
    pub str_type: String,
}

/// A uniform block: its name, where it sorts among the blocks of a shader,
/// its members, its textures, and the backends that bind it.
pub struct UniformInfo {
    pub name: String,
    pub sort: usize,
    pub props: Vec<MemUniformInfo>,
    pub textures: Vec<TexturePropInfo>,
    pub backends: Vec<String>,
}

/// The decimal digit `d` (below 10).
pub open spec fn digit(d: nat) -> char {
    if d == 0 {
        '0'
    } else if d == 1 {
        '1'
    } else if d == 2 {
        '2'
    } else if d == 3 {
        '3'
    } else if d == 4 {
        '4'
    } else if d == 5 {
        '5'
    } else if d == 6 {
        '6'
    } else if d == 7 {
        '7'
    } else if d == 8 {
        '8'
    } else {
        '9'
    }
}

/// The decimal spelling of `n`.
pub open spec fn decimal(n: nat) -> Seq<char>
    decreases n,
{
    if n < 10 {
        seq![digit(n)]
    } else {
        decimal(n / 10).push(digit(n % 10))
    }
}

fn digit_char(d: usize) -> (c: char)
    requires
        d < 10,
    ensures
        c == digit(d as nat),
{
    match d {
        0 => '0',
        1 => '1',
        2 => '2',
        3 => '3',
        4 => '4',
        5 => '5',
        6 => '6',
        7 => '7',
        8 => '8',
        _ => '9',
    }
}

/// Appends the decimal spelling of `n`.
pub fn push_decimal(out: &mut String, n: usize)
    ensures
        final(out)@ == old(out)@ + decimal(n as nat),
    decreases n,
{
    if n >= 10 {
        push_decimal(out, n / 10);
    }
    let ghost before = out@;
    let d = digit_char(n % 10);
    let mut s = String::new();
    crate::text::string_push(&mut s, d);
    out.append(s.as_str());
    proof {
        if n >= 10 {
            assert(out@ =~= old(out)@ + decimal(n as nat));
        } else {
            assert(out@ =~= old(out)@ + decimal(n as nat));
        }
    }
}

/// A string with its first character made upper case if it is a lower case
/// ASCII letter.
pub open spec fn upper_first(s: Seq<char>) -> Seq<char> {
    if s.len() > 0 && 'a' <= s[0] <= 'z' {
        s.update(0, ((s[0] as u32) - 32) as char)
    } else {
        s
    }
}

/// Makes the first character of a string upper case if it is a lower case
/// ASCII letter.
pub fn upper_first_ascii(s: &str) -> (r: String)
    ensures
        r@ == upper_first(s@),
{
    let mut cs = chars_of(s);
    if cs.len() > 0 && 'a' <= cs[0] && cs[0] <= 'z' {
        let c = cs[0];
        let u = ((c as u8) - 32) as char;
        assert(u == ((c as u32) - 32) as char);
        cs.set(0, u);
    }
    let r = string_from_chars(&cs, 0, cs.len());
    proof {
        assert(cs@.subrange(0, cs@.len() as int) =~= cs@);
        assert(cs@ =~= upper_first(s@));
    }
    r
}


/// The GLSL name of a kind of uniform.
pub open spec fn glsl_type_name(t: UniformType) -> Seq<char> {
    match t {
        UniformType::Bool => "bool"@,
        UniformType::Float => "float"@,
        UniformType::Float3 => "vec3"@,
        UniformType::Float4 => "vec4"@,
        UniformType::Int => "int"@,
        UniformType::UInt => "uint"@,
        UniformType::Mat3 => "mat3"@,
        UniformType::Mat4 => "mat4"@,
    }
}

/// The declaration of a plain uniform inside a block: an array type when
/// it holds more than one value.
pub open spec fn prop_line(p: RawUniformInfo) -> Seq<char> {
    "  "@ + (if p.size > 1 {
        glsl_type_name(p.typ) + "["@ + decimal(p.size as nat) + "]"@
    } else {
        glsl_type_name(p.typ)
    }) + " "@ + p.name@ + ";\r\n"@
}

/// The declarations of the plain uniforms among `infos`, in order; arrays
/// are passed over.
pub open spec fn raw_lines(infos: Seq<MemUniformInfo>) -> Seq<char>
    decreases infos.len(),
{
    if infos.len() == 0 {
        Seq::empty()
    } else {
        raw_lines(infos.drop_last()) + match infos.last() {
            MemUniformInfo::Raw(r) => prop_line(r),
            MemUniformInfo::Array(_) => Seq::empty(),
        }
    }
}

/// The struct that the elements of the arrays among `infos` have, for a
/// block named `ubo`, in order.
pub open spec fn struct_defs(ubo: Seq<char>, infos: Seq<MemUniformInfo>) -> Seq<char>
    decreases infos.len(),
{
    if infos.len() == 0 {
        Seq::empty()
    } else {
        struct_defs(ubo, infos.drop_last()) + match infos.last() {
            MemUniformInfo::Raw(_) => Seq::empty(),
            MemUniformInfo::Array(a) => "\r\n"@ + "struct "@ + ubo + a.name@ + " {\r\n"@ + raw_lines(a.elem_def@)
                + "};\r\n"@,
        }
    }
}

/// The members of a block named `ubo`, in order.
pub open spec fn member_lines(ubo: Seq<char>, infos: Seq<MemUniformInfo>) -> Seq<char>
    decreases infos.len(),
{
    if infos.len() == 0 {
        Seq::empty()
    } else {
        member_lines(ubo, infos.drop_last()) + match infos.last() {
            MemUniformInfo::Raw(r) => prop_line(r),
            MemUniformInfo::Array(a) => "  "@ + ubo + a.name@ + " "@ + a.name@ + "["@ + decimal(a.array_size as nat)
                + "];\r\n"@,
        }
    }
}

/// `layout(set = <set>, binding = <binding>) uniform `.
pub open spec fn layout_head(set: nat, binding: nat) -> Seq<char> {
    "layout(set = "@ + decimal(set) + ", binding = "@ + decimal(binding) + ") uniform "@
}

/// The uniform block of `info` in descriptor set `index`, if it has members.
pub open spec fn block_text(info: UniformInfo, index: nat) -> Seq<char> {
    if info.props.len() > 0 {
        layout_head(index, 0) + info.name@ + " {\r\n"@ + member_lines(info.name@, info.props@) + "} _"@ + info.name@
            + ";\r\n"@
    } else {
        Seq::empty()
    }
}

/// The declaration of one texture of a block at `binding`; `low` is the
/// block's name in lower case.
pub open spec fn texture_line(index: nat, low: Seq<char>, binding: nat, t: TexturePropInfo) -> Seq<char> {
    if t.is_cubemap {
        layout_head(index, binding) + "textureCube "@ + low + "_"@ + t.name@ + ";\r\n"@
    } else if t.str_type@ == "texture2DArray"@ {
        "//skip texture array\r\n"@
    } else {
        layout_head(index, binding) + t.str_type@ + " "@ + low + "_"@ + t.name@ + ";\r\n"@
    }
}

/// The declaration of the sampler of one texture of a block at `binding`.
pub open spec fn sampler_line(index: nat, low: Seq<char>, binding: nat, t: TexturePropInfo) -> Seq<char> {
    layout_head(index, binding) + "sampler "@ + low + "_"@ + t.name@ + "S;\r\n"@
}

/// The texture and sampler of one texture of a block, at `binding` and the
/// binding after it.
pub open spec fn texture_text(index: nat, low: Seq<char>, binding: nat, t: TexturePropInfo) -> Seq<char> {
    texture_line(index, low, binding, t) + sampler_line(index, low, binding + 1, t)
}

/// The textures of a block, two bindings each from `first`.
pub open spec fn textures_text(index: nat, low: Seq<char>, first: nat, ts: Seq<TexturePropInfo>) -> Seq<char>
    decreases ts.len(),
{
    if ts.len() == 0 {
        Seq::empty()
    } else {
        textures_text(index, low, first, ts.drop_last()) + texture_text(
            index,
            low,
            first + 2 * (ts.len() - 1) as nat,
            ts.last(),
        )
    }
}

/// The declarations a block's textures make, in order: for texture `k`,
/// its texture at binding `first + 2k` and its sampler at `first + 2k + 1`,
/// so that declaration `j` is at binding `first + j`.
pub open spec fn texture_decls(index: nat, low: Seq<char>, first: nat, ts: Seq<TexturePropInfo>) -> Seq<Seq<char>> {
    Seq::new(
        2 * ts.len(),
        |j: int|
            if j % 2 == 0 {
                texture_line(index, low, (first + j) as nat, ts[j / 2])
            } else {
                sampler_line(index, low, (first + j) as nat, ts[j / 2])
            },
    )
}

proof fn lemma_textures_flat(index: nat, low: Seq<char>, first: nat, ts: Seq<TexturePropInfo>)
    ensures
        textures_text(index, low, first, ts) == texture_decls(index, low, first, ts).flatten_alt(),
    decreases ts.len(),
{
    let d = texture_decls(index, low, first, ts);
    if ts.len() > 0 {
        let n = ts.len() as int;
        lemma_textures_flat(index, low, first, ts.drop_last());
        let d0 = texture_decls(index, low, first, ts.drop_last());
        assert(d.drop_last().drop_last() =~= d0) by {
            assert forall|j: int| 0 <= j < d0.len() implies d.drop_last().drop_last()[j] == d0[j] by {
                assert(j / 2 < n - 1);
                assert(ts.drop_last()[j / 2] == ts[j / 2]);
            }
        }
        assert((2 * n - 2) % 2 == 0 && (2 * n - 2) / 2 == n - 1);
        assert((2 * n - 1) % 2 == 1 && (2 * n - 1) / 2 == n - 1);
        assert(d.drop_last().last() == texture_line(index, low, (first + 2 * n - 2) as nat, ts.last()));
        assert(d.last() == sampler_line(index, low, (first + 2 * n - 1) as nat, ts.last()));
        assert(d.drop_last().flatten_alt() == d0.flatten_alt() + d.drop_last().last());
        assert(textures_text(index, low, first, ts) =~= d.flatten_alt());
    } else {
        assert(d.len() == 0);
    }
}

/// What a uniform block contributes is its structs and block followed by
/// its texture declarations, texture and sampler by texture, each at a
/// binding of its own: declaration `j` at binding `first + j`, where
/// `first` is 1 after a block (which takes binding 0) and 0 without one.
/// No two of them share a binding, and each that is not a skipped texture
/// array starts by naming its set and binding.
pub proof fn lemma_ubo_bindings_distinct(info: UniformInfo, index: nat, low: Seq<char>)
    ensures
        ({
            let first: nat = if info.props.len() > 0 { 1 } else { 0 };
            let d = texture_decls(index, low, first, info.textures@);
            &&& ubo_text(info, index, low) == struct_defs(info.name@, info.props@) + "\r\n"@ + block_text(info, index)
                + d.flatten_alt()
            &&& d.len() == 2 * info.textures@.len()
            &&& forall|j: int|
                0 <= j < d.len() ==> (#[trigger] d[j] == "//skip texture array\r\n"@ || d[j].take(
                    layout_head(index, (first + j) as nat).len() as int,
                ) == layout_head(index, (first + j) as nat))
        }),
{
    let first: nat = if info.props.len() > 0 { 1 } else { 0 };
    let d = texture_decls(index, low, first, info.textures@);
    lemma_textures_flat(index, low, first, info.textures@);
    assert forall|j: int| 0 <= j < d.len() implies (#[trigger] d[j] == "//skip texture array\r\n"@ || d[j].take(
        layout_head(index, (first + j) as nat).len() as int,
    ) == layout_head(index, (first + j) as nat)) by {
        let h = layout_head(index, (first + j) as nat);
        let t = info.textures@[j / 2];
        if j % 2 == 0 {
            if t.is_cubemap {
                assert(d[j].take(h.len() as int) =~= h);
            } else if t.str_type@ == "texture2DArray"@ {
            } else {
                assert(d[j].take(h.len() as int) =~= h);
            }
        } else {
            assert(d[j].take(h.len() as int) =~= h);
        }
    }
}

/// Everything a uniform block contributes in descriptor set `index`: the
/// structs of its arrays, the block, and its textures, which bind after the
/// block; `low` is the block's name in lower case.
pub open spec fn ubo_text(info: UniformInfo, index: nat, low: Seq<char>) -> Seq<char> {
    struct_defs(info.name@, info.props@) + "\r\n"@ + block_text(info, index) + textures_text(
        index,
        low,
        if info.props.len() > 0 {
            1
        } else {
            0
        },
        info.textures@,
    )
}

/// What `str::to_lowercase` returns for a string: its characters mapped to
/// lower case by Unicode's rules.
pub uninterp spec fn str_lowercase(s: Seq<char>) -> Seq<char>;

/// `str::to_lowercase`: its result depends on the string alone, and is
/// named `str_lowercase`; what the mapping is, is not stated here.
#[verifier::external_body]
fn to_lowercase(s: &str) -> (r: String)
    ensures
        r@ == str_lowercase(s@),
{
    s.to_lowercase()
}

fn append_str(out: &mut String, s: &String)
    ensures
        final(out)@ == old(out)@ + s@,
{
    out.append(s.as_str());
}

/// Appends the declaration of a plain uniform inside a block.
pub fn write_ubo_uniform_prop(prop: &RawUniformInfo, out: &mut String)
    ensures
        final(out)@ == old(out)@ + prop_line(*prop),
{
    out.append("  ");
    match prop.typ {
        UniformType::Bool => out.append("bool"),
        UniformType::Float => out.append("float"),
        UniformType::Float3 => out.append("vec3"),
        UniformType::Float4 => out.append("vec4"),
        UniformType::Int => out.append("int"),
        UniformType::UInt => out.append("uint"),
        UniformType::Mat3 => out.append("mat3"),
        UniformType::Mat4 => out.append("mat4"),
    }
    if prop.size > 1 {
        out.append("[");
        push_decimal(out, prop.size);
        out.append("]");
    }
    out.append(" ");
    append_str(out, &prop.name);
    out.append(";\r\n");
    proof {
        assert(out@ =~= old(out)@ + prop_line(*prop));
    }
}

/// Appends the declarations of the plain uniforms among `infos`.
fn write_raw_lines(infos: &Vec<MemUniformInfo>, out: &mut String)
    ensures
        final(out)@ == old(out)@ + raw_lines(infos@),
{
    let ghost o0 = out@;
    let n = infos.len();
    let mut i: usize = 0;
    while i < n
        invariant
            n == infos.len(),
            i <= n,
            out@ == o0 + raw_lines(infos@.take(i as int)),
        decreases n - i,
    {
        let ghost before = out@;
        if let MemUniformInfo::Raw(raw) = &infos[i] {
            write_ubo_uniform_prop(raw, out);
        }
        proof {
            assert(infos@.take(i + 1).drop_last() =~= infos@.take(i as int));
            assert(out@ =~= o0 + raw_lines(infos@.take(i + 1)));
        }
        i = i + 1;
    }
    proof {
        assert(infos@.take(n as int) =~= infos@);
    }
}

/// Appends `layout(set = <set>, binding = <binding>) uniform `.
fn write_layout_head(out: &mut String, set: usize, binding: usize)
    ensures
        final(out)@ == old(out)@ + layout_head(set as nat, binding as nat),
{
    out.append("layout(set = ");
    push_decimal(out, set);
    out.append(", binding = ");
    push_decimal(out, binding);
    out.append(") uniform ");
    proof {
        assert(out@ =~= old(out)@ + layout_head(set as nat, binding as nat));
    }
}

fn write_texture_line(out: &mut String, index: usize, low: &String, binding: usize, tex: &TexturePropInfo)
    ensures
        final(out)@ == old(out)@ + texture_line(index as nat, low@, binding as nat, *tex),
{
    if tex.is_cubemap {
        write_layout_head(out, index, binding);
        out.append("textureCube ");
        append_str(out, low);
        out.append("_");
        append_str(out, &tex.name);
        out.append(";\r\n");
        proof {
            assert(out@ =~= old(out)@ + texture_line(index as nat, low@, binding as nat, *tex));
        }
    } else if string_eq_str(&tex.str_type, "texture2DArray") {
        out.append("//skip texture array\r\n");
    } else {
        write_layout_head(out, index, binding);
        append_str(out, &tex.str_type);
        out.append(" ");
        append_str(out, low);
        out.append("_");
        append_str(out, &tex.name);
        out.append(";\r\n");
        proof {
            assert(out@ =~= old(out)@ + texture_line(index as nat, low@, binding as nat, *tex));
        }
    }
}

fn write_sampler_line(out: &mut String, index: usize, low: &String, binding: usize, tex: &TexturePropInfo)
    ensures
        final(out)@ == old(out)@ + sampler_line(index as nat, low@, binding as nat, *tex),
{
    write_layout_head(out, index, binding);
    out.append("sampler ");
    append_str(out, low);
    out.append("_");
    append_str(out, &tex.name);
    out.append("S;\r\n");
    proof {
        assert(out@ =~= old(out)@ + sampler_line(index as nat, low@, binding as nat, *tex));
    }
}

/// Appends the texture and sampler of one texture of a block.
fn write_texture(out: &mut String, index: usize, low: &String, binding: usize, tex: &TexturePropInfo)
    requires
        binding < usize::MAX,
    ensures
        final(out)@ == old(out)@ + texture_text(index as nat, low@, binding as nat, *tex),
{
    write_texture_line(out, index, low, binding, tex);
    write_sampler_line(out, index, low, binding + 1, tex);
    proof {
        assert(out@ =~= old(out)@ + texture_text(index as nat, low@, binding as nat, *tex));
    }
}

/// Appends everything a uniform block contributes in descriptor set
/// `index`, given its name in lower case.
pub fn write_ubo_uniform_lowered(info: &UniformInfo, low: &String, out: &mut String, index: usize)
    requires
        info.textures.len() < usize::MAX / 4,
    ensures
        final(out)@ == old(out)@ + ubo_text(*info, index as nat, low@),
{
    let ghost o0 = out@;
    let n = info.props.len();
    let mut i: usize = 0;
    while i < n
        invariant
            n == info.props.len(),
            i <= n,
            out@ == o0 + struct_defs(info.name@, info.props@.take(i as int)),
        decreases n - i,
    {
        if let MemUniformInfo::Array(arr) = &info.props[i] {
            out.append("\r\n");
            out.append("struct ");
            append_str(out, &info.name);
            append_str(out, &arr.name);
            out.append(" {\r\n");
            write_raw_lines(&arr.elem_def, out);
            out.append("};\r\n");
        }
        proof {
            assert(info.props@.take(i + 1).drop_last() =~= info.props@.take(i as int));
            assert(out@ =~= o0 + struct_defs(info.name@, info.props@.take(i + 1)));
        }
        i = i + 1;
    }
    proof {
        assert(info.props@.take(n as int) =~= info.props@);
    }
    out.append("\r\n");
    let ghost o1 = out@;
    let mut binding_index: usize = 0;
    if n > 0 {
        write_layout_head(out, index, 0);
        append_str(out, &info.name);
        out.append(" {\r\n");
        binding_index = binding_index + 1;
    }
    let ghost o2 = out@;
    let mut i: usize = 0;
    while i < n
        invariant
            n == info.props.len(),
            i <= n,
            out@ == o2 + member_lines(info.name@, info.props@.take(i as int)),
        decreases n - i,
    {
        match &info.props[i] {
            MemUniformInfo::Raw(raw) => {
                write_ubo_uniform_prop(raw, out);
            },
            MemUniformInfo::Array(arr) => {
                out.append("  ");
                append_str(out, &info.name);
                append_str(out, &arr.name);
                out.append(" ");
                append_str(out, &arr.name);
                out.append("[");
                push_decimal(out, arr.array_size);
                out.append("];\r\n");
            },
        }
        proof {
            assert(info.props@.take(i + 1).drop_last() =~= info.props@.take(i as int));
            assert(out@ =~= o2 + member_lines(info.name@, info.props@.take(i + 1)));
        }
        i = i + 1;
    }
    proof {
        assert(info.props@.take(n as int) =~= info.props@);
    }
    if n > 0 {
        out.append("} _");
        append_str(out, &info.name);
        out.append(";\r\n");
    }
    proof {
        if n == 0 {
            assert(member_lines(info.name@, info.props@) =~= Seq::<char>::empty()) by {
                assert(info.props@ =~= Seq::<MemUniformInfo>::empty());
            }
        }
        assert(out@ =~= o1 + block_text(*info, index as nat));
    }
    let ghost o3 = out@;
    let ghost first = binding_index as nat;
    let m = info.textures.len();
    let mut k: usize = 0;
    while k < m
        invariant
            m == info.textures.len(),
            m < usize::MAX / 4,
            k <= m,
            first <= 1,
            binding_index == first + 2 * k,
            out@ == o3 + textures_text(index as nat, low@, first, info.textures@.take(k as int)),
        decreases m - k,
    {
        let ghost before = out@;
        let tex = &info.textures[k];
        write_texture(out, index, low, binding_index, tex);
        binding_index = binding_index + 2;
        proof {
            let ts = info.textures@.take(k + 1);
            assert(ts.drop_last() =~= info.textures@.take(k as int));
            assert(ts.last() == *tex);
            assert(out@ =~= o3 + textures_text(index as nat, low@, first, ts));
        }
        k = k + 1;
    }
    proof {
        assert(info.textures@.take(m as int) =~= info.textures@);
        assert(out@ =~= old(out)@ + ubo_text(*info, index as nat, low@));
    }
}

/// Appends everything a uniform block contributes in descriptor set
/// `index`; its textures are named after the block's name in lower case.
pub fn write_ubo_uniform(info: &UniformInfo, out: &mut String, index: usize)
    requires
        info.textures.len() < usize::MAX / 4,
    ensures
        final(out)@ == old(out)@ + ubo_text(*info, index as nat, str_lowercase(info.name@)),
{
    let low = to_lowercase(info.name.as_str());
    write_ubo_uniform_lowered(info, &low, out, index);
}


/// A texture of a material: its name, its slot, and whether it is a cube
/// map; its texture binds at twice the slot and its sampler right after.
pub struct TextureIndex {
    pub name: String,
    pub index: usize,
    pub is_cube_map: bool,
}

/// What the compiler knows of a shader pass while writing it: the shader,
/// its macros, the backends it uses, the material's uniforms and textures,
/// and the slot functions the material fills in.
pub struct ShaderTask {
    pub pkg_name: String,
    pub shader_name: String,
    pub macros: Vec<String>,
    pub backends: Vec<String>,
    pub prop_def: Vec<MemUniformInfo>,
    pub tex_props: Vec<TextureIndex>,
    pub slots: Vec<(String, String)>,
}

/// The uniform blocks the render scripts declare, in the order they were
/// added.
pub struct RenderInfo {
    ubos: Vec<UniformInfo>,
}

impl View for RenderInfo {
    type V = Seq<UniformInfo>;

    closed spec fn view(&self) -> Seq<UniformInfo> {
        self.ubos@
    }
}

/// Whether a block is bound by the backend `b`.
pub open spec fn has_backend(u: UniformInfo, b: Seq<char>) -> bool {
    exists|k: int| 0 <= k < u.backends.len() && (#[trigger] u.backends@[k])@ == b
}

/// The block a backend binds: the last one added that names it.
pub open spec fn backend_ubo(ubos: Seq<UniformInfo>, b: Seq<char>) -> Option<usize>
    decreases ubos.len(),
{
    if ubos.len() == 0 {
        None
    } else if has_backend(ubos.last(), b) {
        Some((ubos.len() - 1) as usize)
    } else {
        backend_ubo(ubos.drop_last(), b)
    }
}

/// Whether one of the blocks `order` points at is named `name`.
pub open spec fn has_ubo_named(ubos: Seq<UniformInfo>, order: Seq<usize>, name: Seq<char>) -> bool {
    exists|k: int| 0 <= k < order.len() && ubos[order[k] as int].name@ == name
}

/// The blocks the backends of a shader bind, once per name, the first block
/// of each name in the order of the backends.
pub open spec fn task_ubos(ubos: Seq<UniformInfo>, backends: Seq<String>) -> Seq<usize>
    decreases backends.len(),
{
    if backends.len() == 0 {
        Seq::empty()
    } else {
        let acc = task_ubos(ubos, backends.drop_last());
        match backend_ubo(ubos, backends.last()@) {
            Some(i) => if has_ubo_named(ubos, acc, ubos[i as int].name@) {
                acc
            } else {
                acc.push(i)
            },
            None => acc,
        }
    }
}

/// Inserts block `x` among the sorted blocks `s` after every block whose
/// sort is not greater.
pub open spec fn insert_by_sort(ubos: Seq<UniformInfo>, s: Seq<usize>, x: usize) -> Seq<usize>
    decreases s.len(),
{
    if s.len() == 0 {
        seq![x]
    } else if ubos[s.last() as int].sort <= ubos[x as int].sort {
        s.push(x)
    } else {
        insert_by_sort(ubos, s.drop_last(), x).push(s.last())
    }
}

/// The blocks `s` sorted by their sort, blocks of equal sort in the order
/// of `s`.
pub open spec fn sort_by_sort(ubos: Seq<UniformInfo>, s: Seq<usize>) -> Seq<usize>
    decreases s.len(),
{
    if s.len() == 0 {
        Seq::empty()
    } else {
        insert_by_sort(ubos, sort_by_sort(ubos, s.drop_last()), s.last())
    }
}

/// The blocks `order` points at, block `j` in descriptor set `first + j`.
pub open spec fn ubos_text(ubos: Seq<UniformInfo>, order: Seq<usize>) -> Seq<char>
    decreases order.len(),
{
    if order.len() == 0 {
        Seq::empty()
    } else {
        let u = ubos[order.last() as int];
        ubos_text(ubos, order.drop_last()) + ubo_text(u, (order.len() - 1) as nat, str_lowercase(u.name@))
    }
}

/// The material's own uniform block in descriptor set `index`, if it has
/// uniforms.
pub open spec fn material_text(props: Seq<MemUniformInfo>, index: nat) -> Seq<char> {
    if props.len() > 0 {
        layout_head(index, 0) + "Material {\r\n"@ + raw_lines(props) + "} material;\r\n"@
    } else {
        Seq::empty()
    }
}

/// The texture and sampler of one texture of a material.
pub open spec fn tex_prop_text(index: nat, t: TextureIndex) -> Seq<char> {
    layout_head(index, (t.index * 2) as nat) + (if t.is_cube_map {
        "textureCube tex_"@
    } else {
        "texture2D tex_"@
    }) + t.name@ + ";\r\n"@ + layout_head(index, (t.index * 2 + 1) as nat) + "sampler tex_"@ + t.name@
        + "Sampler;\r\n"@
}

/// The textures of a material, in order.
pub open spec fn tex_props_text(index: nat, ts: Seq<TextureIndex>) -> Seq<char>
    decreases ts.len(),
{
    if ts.len() == 0 {
        Seq::empty()
    } else {
        tex_props_text(index, ts.drop_last()) + tex_prop_text(index, ts.last())
    }
}

/// All the uniforms of a shader pass: the blocks its backends bind, sorted,
/// one descriptor set each; then the material's uniform block and its
/// textures in the next sets.
pub open spec fn uniforms_text(ubos: Seq<UniformInfo>, task: ShaderTask) -> Seq<char> {
    let order = sort_by_sort(ubos, task_ubos(ubos, task.backends@));
    let index = order.len();
    let tex_index = if task.prop_def.len() > 0 {
        index + 1
    } else {
        index
    };
    ubos_text(ubos, order) + "\r\n"@ + material_text(task.prop_def@, index) + tex_props_text(
        tex_index,
        task.tex_props@,
    )
}

/// The sizes are such that the bindings of every texture fit in a `usize`.
pub open spec fn bindings_fit(ubos: Seq<UniformInfo>, task: ShaderTask) -> bool {
    &&& forall|k: int| 0 <= k < ubos.len() ==> (#[trigger] ubos[k]).textures.len() < usize::MAX / 4
    &&& forall|k: int| 0 <= k < task.tex_props.len() ==> (#[trigger] task.tex_props@[k]).index < usize::MAX / 4
}

proof fn lemma_insert_at(ubos: Seq<UniformInfo>, s: Seq<usize>, x: usize, j: int)
    requires
        0 <= j <= s.len(),
        forall|k: int| j <= k < s.len() ==> ubos[s[k] as int].sort > ubos[x as int].sort,
        j > 0 ==> ubos[s[j - 1] as int].sort <= ubos[x as int].sort,
    ensures
        insert_by_sort(ubos, s, x) == s.insert(j, x),
    decreases s.len(),
{
    if s.len() == 0 {
        assert(s.insert(j, x) =~= seq![x]);
    } else if j == s.len() {
        assert(s.insert(j, x) =~= s.push(x));
    } else {
        lemma_insert_at(ubos, s.drop_last(), x, j);
        assert(s.drop_last().insert(j, x).push(s.last()) =~= s.insert(j, x));
    }
}

impl RenderInfo {
    /// No blocks.
    pub fn new() -> (r: Self)
        ensures
            r@ == Seq::<UniformInfo>::empty(),
    {
        RenderInfo { ubos: Vec::new() }
    }

    /// Adds a block; it becomes the block of each backend it names.
    pub fn add_ubo_info(&mut self, info: UniformInfo)
        ensures
            final(self)@ == old(self)@.push(info),
    {
        self.ubos.push(info);
    }

    /// The block the backend `name` binds, if any.
    pub fn find_backend_ubo(&self, name: &str) -> (r: Option<usize>)
        ensures
            r == backend_ubo(self@, name@),
            r matches Some(i) ==> i < self@.len(),
    {
        let n = self.ubos.len();
        let mut i: usize = n;
        proof {
            assert(self@.take(n as int) =~= self@);
        }
        while i > 0
            invariant
                i <= n == self.ubos.len(),
                backend_ubo(self@, name@) == backend_ubo(self@.take(i as int), name@),
            decreases i,
        {
            let u = &self.ubos[i - 1];
            let m = u.backends.len();
            let mut k: usize = 0;
            let mut found = false;
            while k < m
                invariant
                    m == u.backends.len(),
                    k <= m,
                    found == exists|j: int| 0 <= j < k && (#[trigger] u.backends@[j])@ == name@,
                decreases m - k,
            {
                if string_eq_str(&u.backends[k], name) {
                    found = true;
                }
                k = k + 1;
            }
            proof {
                let t = self@.take(i as int);
                assert(t.last() == *u);
                assert(t.drop_last() =~= self@.take(i - 1));
            }
            if found {
                return Some(i - 1);
            }
            i = i - 1;
        }
        proof {
            assert(self@.take(0) =~= Seq::<UniformInfo>::empty());
        }
        None
    }

    fn task_ubo_order(&self, backends: &Vec<String>) -> (r: Vec<usize>)
        ensures
            r@ == task_ubos(self@, backends@),
            forall|k: int| 0 <= k < r@.len() ==> r@[k] < self@.len(),
    {
        let mut acc: Vec<usize> = Vec::new();
        let n = backends.len();
        let mut i: usize = 0;
        while i < n
            invariant
                n == backends.len(),
                i <= n,
                acc@ == task_ubos(self@, backends@.take(i as int)),
                forall|k: int| 0 <= k < acc@.len() ==> acc@[k] < self@.len(),
            decreases n - i,
        {
            proof {
                let b = backends@.take(i + 1);
                assert(b.drop_last() =~= backends@.take(i as int));
                assert(b.last() == backends@[i as int]);
            }
            match self.find_backend_ubo(backends[i].as_str()) {
                Some(u) => {
                    let m = acc.len();
                    let mut k: usize = 0;
                    let mut seen = false;
                    while k < m
                        invariant
                            m == acc.len(),
                            k <= m,
                            u < self@.len(),
                            forall|j: int| 0 <= j < acc@.len() ==> acc@[j] < self@.len(),
                            seen == exists|j: int| 0 <= j < k && self@[acc@[j] as int].name@ == self@[u as int].name@,
                        decreases m - k,
                    {
                        if string_eq_str(&self.ubos[acc[k]].name, self.ubos[u].name.as_str()) {
                            seen = true;
                        }
                        k = k + 1;
                    }
                    if !seen {
                        acc.push(u);
                    }
                },
                None => {},
            }
            i = i + 1;
        }
        proof {
            assert(backends@.take(n as int) =~= backends@);
        }
        acc
    }

    fn sort_order(&self, order: &Vec<usize>) -> (r: Vec<usize>)
        requires
            forall|k: int| 0 <= k < order@.len() ==> order@[k] < self@.len(),
        ensures
            r@ == sort_by_sort(self@, order@),
            r@.len() == order@.len(),
            forall|k: int| 0 <= k < r@.len() ==> r@[k] < self@.len(),
    {
        let mut sorted: Vec<usize> = Vec::new();
        let n = order.len();
        let mut i: usize = 0;
        while i < n
            invariant
                n == order.len(),
                i <= n,
                forall|k: int| 0 <= k < order@.len() ==> order@[k] < self@.len(),
                sorted@ == sort_by_sort(self@, order@.take(i as int)),
                sorted@.len() == i,
                forall|k: int| 0 <= k < sorted@.len() ==> sorted@[k] < self@.len(),
            decreases n - i,
        {
            let x = order[i];
            let key = self.ubos[x].sort;
            let mut j: usize = sorted.len();
            while j > 0 && self.ubos[sorted[j - 1]].sort > key
                invariant
                    j <= sorted.len(),
                    x < self@.len(),
                    key == self@[x as int].sort,
                    forall|k: int| 0 <= k < sorted@.len() ==> sorted@[k] < self@.len(),
                    forall|k: int| j <= k < sorted@.len() ==> self@[sorted@[k] as int].sort > key,
                decreases j,
            {
                j = j - 1;
            }
            proof {
                lemma_insert_at(self@, sorted@, x, j as int);
                let o = order@.take(i + 1);
                assert(o.drop_last() =~= order@.take(i as int));
                assert(o.last() == x);
            }
            sorted.insert(j, x);
            i = i + 1;
        }
        proof {
            assert(order@.take(n as int) =~= order@);
        }
        sorted
    }
}


/// A function a backend offers to shaders: its name, its GLSL type, and
/// the array of the backend's block it reads an element of, if any.
pub struct BackendItem {
    pub name: String,
    pub typ: String,
    pub array_name: Option<String>,
}

/// The accessor of an element of a backend's array: read by index from the
/// block named `un`.
pub open spec fn array_fn_text(f: BackendItem, arr: Seq<char>, un: Seq<char>) -> Seq<char> {
    f.typ@ + " get"@ + upper_first(arr) + upper_first(f.name@) + "(int index){"@ + "return _"@ + un + "."@ + arr
        + "[index]."@ + f.name@ + ";"@ + "}\r\n"@
}

/// The accessors of a 2D texture: a sampling function and a size function,
/// with bodies only if the backend binds a block, whose name in lower case
/// is `low`.
pub open spec fn texture_fn_text(f: BackendItem, bound: bool, low: Seq<char>) -> Seq<char> {
    "vec4 texture_"@ + upper_first(f.name@) + "(vec2 uv){"@ + (if bound {
        "return texture(sampler2D("@ + low + "_"@ + f.name@ + ","@ + low + "_"@ + f.name@ + "S),uv);"@
    } else {
        Seq::empty()
    }) + "}\r\n"@ + "ivec2  textureSize_"@ + upper_first(f.name@) + "(){"@ + (if bound {
        "return textureSize("@ + low + "_"@ + f.name@ + ",0);"@
    } else {
        Seq::empty()
    }) + "}\r\n"@
}

/// The accessor of a plain value of a backend, read from the block named
/// by `ubo` if there is one.
pub open spec fn plain_fn_text(f: BackendItem, ubo: Option<Seq<char>>) -> Seq<char> {
    f.typ@ + " get"@ + upper_first(f.name@) + "(){"@ + (match ubo {
        Some(un) => "return _"@ + un + "."@ + f.name@ + ";"@,
        None => Seq::empty(),
    }) + "}\r\n"@
}

/// The accessor of a backend function; `ubo` is the name of the block the
/// backend binds, if any, and `low` that name in lower case. An element of
/// an array is read by index, a 2D texture is sampled and sized, cube maps
/// and texture arrays get nothing, and anything else is read from the
/// block. Names are used with their first letter made upper case.
pub open spec fn trait_fn_text(f: BackendItem, ubo: Option<Seq<char>>, low: Seq<char>) -> Seq<char> {
    "\r\n"@ + match f.array_name {
        Some(arr) => match ubo {
            Some(un) => array_fn_text(f, arr@, un),
            None => Seq::empty(),
        },
        None => if f.typ@ == "texture2D"@ {
            texture_fn_text(f, ubo is Some, low)
        } else if f.typ@ == "cubeMap"@ || f.typ@ == "texture2DArray"@ {
            Seq::empty()
        } else {
            plain_fn_text(f, ubo)
        },
    }
}

/// The block name and its lower case for the block a backend binds, if any.
pub open spec fn ubo_names(ubos: Seq<UniformInfo>, backend: Seq<char>) -> (Option<Seq<char>>, Seq<char>) {
    match backend_ubo(ubos, backend) {
        Some(i) => (Some(ubos[i as int].name@), str_lowercase(ubos[i as int].name@)),
        None => (None, Seq::empty()),
    }
}

/// The accessors of the functions `fns` of the backend `backend`, in order.
pub open spec fn trait_fns_text(ubos: Seq<UniformInfo>, fns: Seq<BackendItem>, backend: Seq<char>) -> Seq<char>
    decreases fns.len(),
{
    if fns.len() == 0 {
        Seq::empty()
    } else {
        let (un, low) = ubo_names(ubos, backend);
        trait_fns_text(ubos, fns.drop_last(), backend) + trait_fn_text(fns.last(), un, low)
    }
}

/// The first backend of `backends` named `name`.
pub open spec fn find_backend(backends: Seq<(String, Vec<BackendItem>)>, name: Seq<char>) -> Option<int>
    decreases backends.len(),
{
    if backends.len() == 0 {
        None
    } else {
        match find_backend(backends.drop_last(), name) {
            Some(i) => Some(i),
            None => if backends.last().0@ == name {
                Some(backends.len() - 1)
            } else {
                None
            },
        }
    }
}

/// The accessors of the functions of each backend a shader uses, in the
/// order of its backends; a backend that is not known gives nothing.
pub open spec fn backend_trait_text(
    ubos: Seq<UniformInfo>,
    backends: Seq<(String, Vec<BackendItem>)>,
    used: Seq<String>,
) -> Seq<char>
    decreases used.len(),
{
    if used.len() == 0 {
        Seq::empty()
    } else {
        backend_trait_text(ubos, backends, used.drop_last()) + match find_backend(backends, used.last()@) {
            Some(i) => trait_fns_text(ubos, backends[i].1@, used.last()@),
            None => Seq::empty(),
        }
    }
}

/// Whether `s` begins with `prefix`.
pub open spec fn starts_with(s: Seq<char>, prefix: Seq<char>) -> bool {
    prefix.len() <= s.len() && s.take(prefix.len() as int) == prefix
}

/// The function filled into the slot `key`: the first entry with that key.
pub open spec fn slot_lookup(slots: Seq<(String, String)>, key: Seq<char>) -> Option<Seq<char>>
    decreases slots.len(),
{
    if slots.len() == 0 {
        None
    } else {
        match slot_lookup(slots.drop_last(), key) {
            Some(f) => Some(f),
            None => if slots.last().0@ == key {
                Some(slots.last().1@)
            } else {
                None
            },
        }
    }
}

/// The slot functions of the shader's slots whose names begin with
/// `prefix` and that the material fills in, in the shader's order, each
/// between line breaks.
pub open spec fn slots_text(prefix: Seq<char>, shader_slots: Seq<String>, slots: Seq<(String, String)>) -> Seq<char>
    decreases shader_slots.len(),
{
    if shader_slots.len() == 0 {
        Seq::empty()
    } else {
        let slot = shader_slots.last()@;
        slots_text(prefix, shader_slots.drop_last(), slots) + if starts_with(slot, prefix) {
            match slot_lookup(slots, slot) {
                Some(f) => "\r\n"@ + f + "\r\n"@,
                None => Seq::empty(),
            }
        } else {
            Seq::empty()
        }
    }
}

/// The head every shader begins with.
pub open spec fn common_head() -> Seq<char> {
    "#version 450\r\n"@ + "#extension GL_EXT_samplerless_texture_functions : enable\r\n"@
}

fn write_array_fn(out: &mut String, fn_info: &BackendItem, array_name: &String, un: &String)
    ensures
        final(out)@ == old(out)@ + array_fn_text(*fn_info, array_name@, un@),
{
    let new_name = upper_first_ascii(fn_info.name.as_str());
    let new_array_name = upper_first_ascii(array_name.as_str());
    append_str(out, &fn_info.typ);
    out.append(" get");
    append_str(out, &new_array_name);
    append_str(out, &new_name);
    out.append("(int index){");
    out.append("return _");
    append_str(out, un);
    out.append(".");
    append_str(out, array_name);
    out.append("[index].");
    append_str(out, &fn_info.name);
    out.append(";");
    out.append("}\r\n");
    proof {
        assert(out@ =~= old(out)@ + array_fn_text(*fn_info, array_name@, un@));
    }
}

fn write_texture_fn(out: &mut String, fn_info: &BackendItem, bound: bool, low: &String)
    ensures
        final(out)@ == old(out)@ + texture_fn_text(*fn_info, bound, low@),
{
    let new_name = upper_first_ascii(fn_info.name.as_str());
    out.append("vec4 texture_");
    append_str(out, &new_name);
    out.append("(vec2 uv){");
    let ghost o1 = out@;
    if bound {
        out.append("return texture(sampler2D(");
        append_str(out, low);
        out.append("_");
        append_str(out, &fn_info.name);
        out.append(",");
        append_str(out, low);
        out.append("_");
        append_str(out, &fn_info.name);
        out.append("S),uv);");
    }
    let ghost o2 = out@;
    out.append("}\r\n");
    out.append("ivec2  textureSize_");
    append_str(out, &new_name);
    out.append("(){");
    let ghost o3 = out@;
    if bound {
        out.append("return textureSize(");
        append_str(out, low);
        out.append("_");
        append_str(out, &fn_info.name);
        out.append(",0);");
    }
    out.append("}\r\n");
    proof {
        assert(out@ =~= old(out)@ + texture_fn_text(*fn_info, bound, low@));
    }
}

fn write_plain_fn(out: &mut String, fn_info: &BackendItem, ubo: Option<&String>)
    ensures
        final(out)@ == old(out)@ + plain_fn_text(*fn_info, match ubo {
            Some(u) => Some(u@),
            None => None,
        }),
{
    let new_name = upper_first_ascii(fn_info.name.as_str());
    append_str(out, &fn_info.typ);
    out.append(" get");
    append_str(out, &new_name);
    out.append("(){");
    if let Some(u) = ubo {
        out.append("return _");
        append_str(out, u);
        out.append(".");
        append_str(out, &fn_info.name);
        out.append(";");
    }
    out.append("}\r\n");
    proof {
        assert(out@ =~= old(out)@ + plain_fn_text(*fn_info, match ubo {
            Some(u) => Some(u@),
            None => None,
        }));
    }
}

/// Appends the accessor of a backend function, given the name of the block
/// the backend binds, if any, and that name in lower case.
pub fn write_trait_fn(out: &mut String, fn_info: &BackendItem, ubo: Option<&String>, low: &String)
    ensures
        final(out)@ == old(out)@ + trait_fn_text(*fn_info, match ubo {
            Some(u) => Some(u@),
            None => None,
        }, low@),
{
    let ghost un = match ubo {
        Some(u) => Some(u@),
        None => None::<Seq<char>>,
    };
    out.append("\r\n");
    let ghost o1 = out@;
    match &fn_info.array_name {
        Some(array_name) => {
            if let Some(u) = ubo {
                write_array_fn(out, fn_info, array_name, u);
            }
        },
        None => {
            if string_eq_str(&fn_info.typ, "texture2D") {
                write_texture_fn(out, fn_info, ubo.is_some(), low);
            } else if string_eq_str(&fn_info.typ, "cubeMap") || string_eq_str(&fn_info.typ, "texture2DArray") {
            } else {
                write_plain_fn(out, fn_info, ubo);
            }
        },
    }
    proof {
        assert(out@ =~= old(out)@ + trait_fn_text(*fn_info, un, low@));
    }
}

/// Appends the slot functions of the shader's slots whose names begin with
/// `prefix` and that the material fills in.
fn write_slots(out: &mut String, prefix: &str, shader_slots: &Vec<String>, slots: &Vec<(String, String)>)
    ensures
        final(out)@ == old(out)@ + slots_text(prefix@, shader_slots@, slots@),
{
    let pre = chars_of(prefix);
    let n = shader_slots.len();
    let mut i: usize = 0;
    while i < n
        invariant
            n == shader_slots.len(),
            i <= n,
            pre@ == prefix@,
            out@ == old(out)@ + slots_text(prefix@, shader_slots@.take(i as int), slots@),
        decreases n - i,
    {
        let ghost before = out@;
        let slot = &shader_slots[i];
        if str_starts_with(slot.as_str(), &pre) {
            match find_slot(slots, slot) {
                Some(f) => {
                    out.append("\r\n");
                    append_str(out, f);
                    out.append("\r\n");
                },
                None => {},
            }
        }
        proof {
            let t = shader_slots@.take(i + 1);
            assert(t.drop_last() =~= shader_slots@.take(i as int));
            assert(t.last() == *slot);
            assert(out@ =~= old(out)@ + slots_text(prefix@, t, slots@));
        }
        i = i + 1;
    }
    proof {
        assert(shader_slots@.take(n as int) =~= shader_slots@);
    }
}

/// Whether the string `s` begins with the characters `prefix`.
fn str_starts_with(s: &str, prefix: &Vec<char>) -> (r: bool)
    ensures
        r == starts_with(s@, prefix@),
{
    let cs = chars_of(s);
    if prefix.len() > cs.len() {
        return false;
    }
    let mut k: usize = 0;
    while k < prefix.len()
        invariant
            prefix.len() <= cs.len(),
            cs@ == s@,
            k <= prefix.len(),
            forall|j: int| 0 <= j < k ==> cs@[j] == prefix@[j],
        decreases prefix.len() - k,
    {
        if cs[k] != prefix[k] {
            proof {
                assert(s@.take(prefix@.len() as int)[k as int] != prefix@[k as int]);
            }
            return false;
        }
        k = k + 1;
    }
    proof {
        assert(s@.take(prefix@.len() as int) =~= prefix@);
    }
    true
}

/// The function the material fills into the slot `key`, if any.
fn find_slot<'a>(slots: &'a Vec<(String, String)>, key: &String) -> (r: Option<&'a String>)
    ensures
        match r {
            Some(f) => slot_lookup(slots@, key@) == Some(f@),
            None => slot_lookup(slots@, key@) is None,
        },
{
    let n = slots.len();
    let mut i: usize = 0;
    while i < n
        invariant
            n == slots.len(),
            i <= n,
            slot_lookup(slots@.take(i as int), key@) is None,
        decreases n - i,
    {
        proof {
            let t = slots@.take(i + 1);
            assert(t.drop_last() =~= slots@.take(i as int));
            assert(t.last() == slots@[i as int]);
        }
        if string_eq_str(&slots[i].0, key.as_str()) {
            proof {
                lemma_slot_lookup_prefix(slots@, key@, i + 1);
            }
            return Some(&slots[i].1);
        }
        i = i + 1;
    }
    proof {
        assert(slots@.take(n as int) =~= slots@);
    }
    None
}

proof fn lemma_slot_lookup_prefix(slots: Seq<(String, String)>, key: Seq<char>, i: int)
    requires
        0 <= i <= slots.len(),
        slot_lookup(slots.take(i), key) is Some,
    ensures
        slot_lookup(slots, key) == slot_lookup(slots.take(i), key),
    decreases slots.len(),
{
    if i < slots.len() {
        assert(slots.drop_last().take(i) =~= slots.take(i));
        lemma_slot_lookup_prefix(slots.drop_last(), key, i);
    } else {
        assert(slots.take(i) =~= slots);
    }
}


/// The vertex attributes a shader can read, each with its location and
/// GLSL type.
pub open spec fn vertex_table() -> Seq<(Seq<char>, usize, Seq<char>)> {
    seq![
        ("POSITION"@, 0usize, "vec3"@),
        ("UV0"@, 1usize, "vec2"@),
        ("UV1"@, 2usize, "vec2"@),
        ("NORMAL"@, 3usize, "vec3"@),
        ("TANGENT"@, 4usize, "vec4"@),
        ("COLOR"@, 5usize, "vec4"@),
        ("JOINTS"@, 6usize, "uvec4"@),
        ("WEIGHTS"@, 7usize, "vec4"@),
        ("INDEX0"@, 8usize, "int"@),
    ]
}

/// The view of a table of vertex attributes.
pub open spec fn vertex_view(v: Seq<(String, usize, String)>) -> Seq<(Seq<char>, usize, Seq<char>)> {
    v.map_values(|e: (String, usize, String)| (e.0@, e.1, e.2@))
}

/// The writer of the engine's side of a shader: its uniform blocks, the
/// accessors of its backends, and its slots.
pub struct SeijaShaderBackend {
    pub render_info: RenderInfo,
    pub vertexs: Vec<(String, usize, String)>,
}

impl SeijaShaderBackend {
    /// A writer that knows no uniform blocks yet, with the engine's vertex
    /// attributes.
    pub fn new() -> (b: Self)
        ensures
            b.render_info@ == Seq::<UniformInfo>::empty(),
            vertex_view(b.vertexs@) == vertex_table(),
    {
        let mut vertexs: Vec<(String, usize, String)> = Vec::new();
        vertexs.push((String::from_str("POSITION"), 0, String::from_str("vec3")));
        vertexs.push((String::from_str("UV0"), 1, String::from_str("vec2")));
        vertexs.push((String::from_str("UV1"), 2, String::from_str("vec2")));
        vertexs.push((String::from_str("NORMAL"), 3, String::from_str("vec3")));
        vertexs.push((String::from_str("TANGENT"), 4, String::from_str("vec4")));
        vertexs.push((String::from_str("COLOR"), 5, String::from_str("vec4")));
        vertexs.push((String::from_str("JOINTS"), 6, String::from_str("uvec4")));
        vertexs.push((String::from_str("WEIGHTS"), 7, String::from_str("vec4")));
        vertexs.push((String::from_str("INDEX0"), 8, String::from_str("int")));
        let b = SeijaShaderBackend { render_info: RenderInfo::new(), vertexs };
        proof {
            assert(vertex_view(b.vertexs@) =~= vertex_table());
        }
        b
    }

    /// The vertex attributes a shader can read.
    pub fn vertex_names(&self) -> (r: &Vec<(String, usize, String)>)
        ensures
            r@ == self.vertexs@,
    {
        &self.vertexs
    }

    /// Appends the head every shader begins with.
    pub fn write_common_head(&self, out: &mut String)
        ensures
            final(out)@ == old(out)@ + common_head(),
    {
        out.append("#version 450\r\n");
        out.append("#extension GL_EXT_samplerless_texture_functions : enable\r\n");
        proof {
            assert(out@ =~= old(out)@ + common_head());
        }
    }

    /// Appends the head of a fragment shader, which is empty.
    pub fn write_fs_head(&self, out: &mut String)
        ensures
            final(out)@ == old(out)@,
    {
    }

    /// Appends the blocks `sorted` points at, block `j` in set `j`.
    fn write_ubos(&self, out: &mut String, sorted: &Vec<usize>)
        requires
            forall|k: int| 0 <= k < sorted@.len() ==> sorted@[k] < self.render_info@.len(),
            forall|k: int|
                0 <= k < self.render_info@.len() ==> (#[trigger] self.render_info@[k]).textures.len() < usize::MAX
                    / 4,
        ensures
            final(out)@ == old(out)@ + ubos_text(self.render_info@, sorted@),
    {
        let ubos = &self.render_info.ubos;
        let n = sorted.len();
        let mut j: usize = 0;
        assert forall|k: int| 0 <= k < ubos@.len() implies (#[trigger] ubos@[k]).textures.len() < usize::MAX / 4 by {
            assert(ubos@[k] == self.render_info@[k]);
        }
        while j < n
            invariant
                n == sorted.len(),
                j <= n,
                ubos@ == self.render_info@,
                forall|k: int| 0 <= k < ubos@.len() ==> (#[trigger] ubos@[k]).textures.len() < usize::MAX / 4,
                forall|k: int| 0 <= k < sorted@.len() ==> sorted@[k] < ubos@.len(),
                out@ == old(out)@ + ubos_text(ubos@, sorted@.take(j as int)),
            decreases n - j,
        {
            let u = &ubos[sorted[j]];
            write_ubo_uniform(u, out, j);
            proof {
                let t = sorted@.take(j + 1);
                assert(t.drop_last() =~= sorted@.take(j as int));
                assert(t.last() == sorted@[j as int]);
            }
            j = j + 1;
        }
        proof {
            assert(sorted@.take(n as int) =~= sorted@);
        }
    }

    /// Appends all the uniforms of a shader pass.
    pub fn write_uniforms(&self, out: &mut String, task: &ShaderTask)
        requires
            bindings_fit(self.render_info@, *task),
            task.backends.len() < usize::MAX,
        ensures
            final(out)@ == old(out)@ + uniforms_text(self.render_info@, *task),
    {
        let order = self.render_info.task_ubo_order(&task.backends);
        let sorted = self.render_info.sort_order(&order);
        proof {
            lemma_sorted_len(self.render_info@, order@);
            lemma_task_ubos_len(self.render_info@, task.backends@);
        }
        self.write_ubos(out, &sorted);
        out.append("\r\n");
        write_material_uniforms(out, sorted.len(), task);
        proof {
            assert(out@ =~= old(out)@ + uniforms_text(self.render_info@, *task));
        }
    }

    /// Appends the accessor of a backend function for the backend
    /// `backend_name`.
    pub fn write_backend_trait_fn(&self, out: &mut String, fn_info: &BackendItem, backend_name: &str)
        ensures
            final(out)@ == old(out)@ + trait_fn_text(
                *fn_info,
                ubo_names(self.render_info@, backend_name@).0,
                ubo_names(self.render_info@, backend_name@).1,
            ),
    {
        match self.render_info.find_backend_ubo(backend_name) {
            Some(i) => {
                let name = &self.render_info.ubos[i].name;
                let low = to_lowercase(name.as_str());
                write_trait_fn(out, fn_info, Some(name), &low);
            },
            None => {
                let low = String::new();
                write_trait_fn(out, fn_info, None, &low);
            },
        }
    }

    /// Appends the accessors of the functions of each backend the shader
    /// uses; `backends` are the known backends with their functions.
    pub fn write_backend_trait(
        &self,
        out: &mut String,
        backends: &Vec<(String, Vec<BackendItem>)>,
        task: &ShaderTask,
    )
        ensures
            final(out)@ == old(out)@ + backend_trait_text(self.render_info@, backends@, task.backends@),
    {
        let n = task.backends.len();
        let mut i: usize = 0;
        while i < n
            invariant
                n == task.backends.len(),
                i <= n,
                out@ == old(out)@ + backend_trait_text(self.render_info@, backends@, task.backends@.take(i as int)),
            decreases n - i,
        {
            let ghost before = out@;
            let name = &task.backends[i];
            match find_backend_fns(backends, name) {
                Some(b) => {
                    self.write_backend_fns(out, &backends[b].1, name);
                    proof {
                        assert(out@ == before + trait_fns_text(self.render_info@, backends@[b as int].1@, name@));
                    }
                },
                None => {
                    proof {
                        assert(out@ =~= before + Seq::<char>::empty());
                    }
                },
            }
            proof {
                let t = task.backends@.take(i + 1);
                assert(t.drop_last() =~= task.backends@.take(i as int));
                assert(t.last() == *name);
                let step = match find_backend(backends@, name@) {
                    Some(j) => trait_fns_text(self.render_info@, backends@[j].1@, name@),
                    None => Seq::empty(),
                };
                assert(out@ == before + step);
                assert(backend_trait_text(self.render_info@, backends@, t) == backend_trait_text(
                    self.render_info@,
                    backends@,
                    task.backends@.take(i as int),
                ) + step);
                assert(out@ =~= old(out)@ + backend_trait_text(self.render_info@, backends@, t));
            }
            i = i + 1;
        }
        proof {
            assert(task.backends@.take(n as int) =~= task.backends@);
        }
    }

    /// Appends the accessors of the functions `fns` of the backend `name`.
    fn write_backend_fns(&self, out: &mut String, fns: &Vec<BackendItem>, name: &String)
        ensures
            final(out)@ == old(out)@ + trait_fns_text(self.render_info@, fns@, name@),
    {
        let m = fns.len();
        let mut k: usize = 0;
        while k < m
            invariant
                m == fns.len(),
                k <= m,
                out@ == old(out)@ + trait_fns_text(self.render_info@, fns@.take(k as int), name@),
            decreases m - k,
        {
            self.write_backend_trait_fn(out, &fns[k], name.as_str());
            proof {
                let t = fns@.take(k + 1);
                assert(t.drop_last() =~= fns@.take(k as int));
                assert(t.last() == fns@[k as int]);
            }
            k = k + 1;
        }
        proof {
            assert(fns@.take(m as int) =~= fns@);
        }
    }

    /// Appends the vertex shader slot functions the material fills in, in
    /// the order of the shader's slots.
    pub fn write_vs_slots(&self, out: &mut String, shader_slots: &Vec<String>, task: &ShaderTask)
        ensures
            final(out)@ == old(out)@ + slots_text("slot_vs"@, shader_slots@, task.slots@),
    {
        write_slots(out, "slot_vs", shader_slots, &task.slots);
    }

    /// Appends the fragment shader slot functions the material fills in, in
    /// the order of the shader's slots.
    pub fn write_fs_slots(&self, out: &mut String, shader_slots: &Vec<String>, task: &ShaderTask)
        ensures
            final(out)@ == old(out)@ + slots_text("slot_fs"@, shader_slots@, task.slots@),
    {
        write_slots(out, "slot_fs", shader_slots, &task.slots);
    }
}

proof fn lemma_task_ubos_len(ubos: Seq<UniformInfo>, backends: Seq<String>)
    ensures
        task_ubos(ubos, backends).len() <= backends.len(),
    decreases backends.len(),
{
    if backends.len() > 0 {
        lemma_task_ubos_len(ubos, backends.drop_last());
    }
}

/// Appends the material's own uniform block in set `index` and its
/// textures in the set after it if there is a block, in set `index` if not.
fn write_material_uniforms(out: &mut String, index: usize, task: &ShaderTask)
    requires
        index < usize::MAX,
        forall|k: int| 0 <= k < task.tex_props.len() ==> (#[trigger] task.tex_props@[k]).index < usize::MAX / 4,
    ensures
        final(out)@ == old(out)@ + material_text(task.prop_def@, index as nat) + tex_props_text(
            if task.prop_def.len() > 0 {
                (index + 1) as nat
            } else {
                index as nat
            },
            task.tex_props@,
        ),
{
    let mut tex_index = index;
    if task.prop_def.len() > 0 {
        write_layout_head(out, index, 0);
        out.append("Material {\r\n");
        write_raw_lines(&task.prop_def, out);
        out.append("} material;\r\n");
        tex_index = index + 1;
    }
    proof {
        assert(out@ =~= old(out)@ + material_text(task.prop_def@, index as nat));
    }
    let ghost o2 = out@;
    let m = task.tex_props.len();
    let mut k: usize = 0;
    while k < m
        invariant
            m == task.tex_props.len(),
            k <= m,
            forall|j: int| 0 <= j < task.tex_props.len() ==> (#[trigger] task.tex_props@[j]).index < usize::MAX / 4,
            out@ == o2 + tex_props_text(tex_index as nat, task.tex_props@.take(k as int)),
        decreases m - k,
    {
        write_tex_prop(out, tex_index, &task.tex_props[k]);
        proof {
            let t = task.tex_props@.take(k + 1);
            assert(t.drop_last() =~= task.tex_props@.take(k as int));
            assert(t.last() == task.tex_props@[k as int]);
        }
        k = k + 1;
    }
    proof {
        assert(task.tex_props@.take(m as int) =~= task.tex_props@);
    }
}

proof fn lemma_insert_len(ubos: Seq<UniformInfo>, s: Seq<usize>, x: usize)
    ensures
        insert_by_sort(ubos, s, x).len() == s.len() + 1,
    decreases s.len(),
{
    if s.len() > 0 {
        lemma_insert_len(ubos, s.drop_last(), x);
    }
}

proof fn lemma_sorted_len(ubos: Seq<UniformInfo>, s: Seq<usize>)
    ensures
        sort_by_sort(ubos, s).len() == s.len(),
    decreases s.len(),
{
    if s.len() > 0 {
        lemma_sorted_len(ubos, s.drop_last());
        lemma_insert_len(ubos, sort_by_sort(ubos, s.drop_last()), s.last());
    }
}

/// Appends the texture and sampler of one texture of a material.
fn write_tex_prop(out: &mut String, index: usize, t: &TextureIndex)
    requires
        t.index < usize::MAX / 4,
    ensures
        final(out)@ == old(out)@ + tex_prop_text(index as nat, *t),
{
    write_layout_head(out, index, t.index * 2);
    if t.is_cube_map {
        out.append("textureCube tex_");
    } else {
        out.append("texture2D tex_");
    }
    append_str(out, &t.name);
    out.append(";\r\n");
    write_layout_head(out, index, t.index * 2 + 1);
    out.append("sampler tex_");
    append_str(out, &t.name);
    out.append("Sampler;\r\n");
    proof {
        assert(out@ =~= old(out)@ + tex_prop_text(index as nat, *t));
    }
}

/// The first backend of `backends` named `name`.
fn find_backend_fns(backends: &Vec<(String, Vec<BackendItem>)>, name: &String) -> (r: Option<usize>)
    ensures
        match r {
            Some(i) => find_backend(backends@, name@) == Some(i as int) && i < backends@.len(),
            None => find_backend(backends@, name@) is None,
        },
{
    let n = backends.len();
    let mut i: usize = 0;
    while i < n
        invariant
            n == backends.len(),
            i <= n,
            find_backend(backends@.take(i as int), name@) is None,
        decreases n - i,
    {
        proof {
            let t = backends@.take(i + 1);
            assert(t.drop_last() =~= backends@.take(i as int));
            assert(t.last() == backends@[i as int]);
        }
        if string_eq_str(&backends[i].0, name.as_str()) {
            proof {
                lemma_find_backend_prefix(backends@, name@, i + 1);
            }
            return Some(i);
        }
        i = i + 1;
    }
    proof {
        assert(backends@.take(n as int) =~= backends@);
    }
    None
}

proof fn lemma_find_backend_prefix(backends: Seq<(String, Vec<BackendItem>)>, name: Seq<char>, i: int)
    requires
        0 <= i <= backends.len(),
        find_backend(backends.take(i), name) is Some,
    ensures
        find_backend(backends, name) == find_backend(backends.take(i), name),
    decreases backends.len(),
{
    if i < backends.len() {
        assert(backends.drop_last().take(i) =~= backends.take(i));
        lemma_find_backend_prefix(backends.drop_last(), name, i);
    } else {
        assert(backends.take(i) =~= backends);
    }
}


proof fn lemma_insert_bounded(ubos: Seq<UniformInfo>, s: Seq<usize>, x: usize, bound: int)
    requires
        forall|k: int| 0 <= k < s.len() ==> ubos[s[k] as int].sort <= bound,
        ubos[x as int].sort <= bound,
    ensures
        forall|k: int|
            0 <= k < insert_by_sort(ubos, s, x).len() ==> ubos[insert_by_sort(ubos, s, x)[k] as int].sort <= bound,
    decreases s.len(),
{
    lemma_insert_len(ubos, s, x);
    if s.len() > 0 && ubos[s.last() as int].sort > ubos[x as int].sort {
        lemma_insert_bounded(ubos, s.drop_last(), x, bound);
        lemma_insert_len(ubos, s.drop_last(), x);
    }
}

proof fn lemma_insert_sorted(ubos: Seq<UniformInfo>, s: Seq<usize>, x: usize)
    requires
        forall|j: int, k: int| 0 <= j < k < s.len() ==> ubos[s[j] as int].sort <= ubos[s[k] as int].sort,
    ensures
        forall|j: int, k: int|
            0 <= j < k < insert_by_sort(ubos, s, x).len() ==> ubos[insert_by_sort(ubos, s, x)[j] as int].sort
                <= ubos[insert_by_sort(ubos, s, x)[k] as int].sort,
        insert_by_sort(ubos, s, x).to_multiset() == s.to_multiset().insert(x),
    decreases s.len(),
{
    broadcast use vstd::seq_lib::to_multiset_build, vstd::multiset::group_multiset_axioms;
    lemma_insert_len(ubos, s, x);
    if s.len() == 0 {
        assert(seq![x] =~= Seq::<usize>::empty().push(x));
        assert(s =~= Seq::<usize>::empty());
    } else if ubos[s.last() as int].sort <= ubos[x as int].sort {
    } else {
        let d = s.drop_last();
        lemma_insert_sorted(ubos, d, x);
        lemma_insert_bounded(ubos, d, x, ubos[s.last() as int].sort as int);
        assert(d.push(s.last()) =~= s);
        let inner = insert_by_sort(ubos, d, x);
        assert(inner.push(s.last()).to_multiset() =~= inner.to_multiset().insert(s.last()));
        assert(d.to_multiset().insert(x).insert(s.last()) =~= d.to_multiset().insert(s.last()).insert(x));
        assert(insert_by_sort(ubos, s, x).to_multiset() =~= s.to_multiset().insert(x));
    }
}

/// The uniform blocks of a shader come out sorted by their sort, and
/// sorting keeps exactly the blocks it was given.
pub proof fn lemma_sort_by_sort(ubos: Seq<UniformInfo>, s: Seq<usize>)
    ensures
        sort_by_sort(ubos, s).to_multiset() == s.to_multiset(),
        forall|j: int, k: int|
            0 <= j < k < sort_by_sort(ubos, s).len() ==> ubos[sort_by_sort(ubos, s)[j] as int].sort
                <= ubos[sort_by_sort(ubos, s)[k] as int].sort,
    decreases s.len(),
{
    broadcast use vstd::seq_lib::to_multiset_build, vstd::multiset::group_multiset_axioms;
    if s.len() == 0 {
        assert(s =~= Seq::<usize>::empty());
    } else {
        lemma_sort_by_sort(ubos, s.drop_last());
        lemma_insert_sorted(ubos, sort_by_sort(ubos, s.drop_last()), s.last());
        assert(s.drop_last().push(s.last()) =~= s);
    }
}

} // verus!
