//! C# bindings for the declarations of a header: enums, structs, and a
//! static class of `DllImport` functions.
use vstd::prelude::*;
use crate::ffi_file::{
    DataType, DataTypeFull, DataTypeFullView, DataTypeView, EnumDefineView, FFIFile,
    FFIFileView, FuncParamView, FunctionDefine, FunctionDefineView, Stmt, StmtView, StructItemView,
};
use crate::parse_gen::{GenError, IGenerator, ParseGenConfig};
use crate::parser::string_eq_str;
use crate::text::string_push;

verus! {

broadcast use vstd::string::group_string_axioms;

/// The C# spelling of a type. A pointer is an `IntPtr`, except that a
/// `char *` is marshalled as a UTF-8 string; `uint8_t` has no spelling.
pub open spec fn cs_type(t: DataTypeFullView) -> Seq<char> {
    if t.is_ptr {
        if t.typ == DataTypeView::Custom("char"@) {
            "[MarshalAs(UnmanagedType.LPUTF8Str)] string"@
        } else {
            "IntPtr"@
        }
    } else {
        match t.typ {
            DataTypeView::Void => "void"@,
            DataTypeView::Bool => "bool"@,
            DataTypeView::Float => "float"@,
            DataTypeView::String => "string"@,
            DataTypeView::U32 => "uint"@,
            DataTypeView::U64 => "ulong"@,
            DataTypeView::Custom(c) => c,
            DataTypeView::U8 => Seq::empty(),
        }
    }
}

/// One field of a C# enum.
pub open spec fn cs_enum_field(f: (Seq<char>, Option<Seq<char>>)) -> Seq<char> {
    "    "@ + f.0 + match f.1 {
        Some(v) => " = "@ + v,
        None => Seq::empty(),
    } + ",\r\n"@
}

/// The fields of a C# enum, in order.
pub open spec fn cs_enum_fields(l: Seq<(Seq<char>, Option<Seq<char>>)>) -> Seq<char>
    decreases l.len(),
{
    if l.len() == 0 {
        Seq::empty()
    } else {
        cs_enum_fields(l.drop_last()) + cs_enum_field(l.last())
    }
}

/// A C# enum.
pub open spec fn cs_enum(e: EnumDefineView) -> Seq<char> {
    "public enum "@ + e.name + " {\r\n"@ + cs_enum_fields(e.list) + " };\r\n\r\n"@
}

/// The C# line of an enum field named `name`, with `value` if it has one.
pub open spec fn enum_field_line(name: Seq<char>, value: Option<Seq<char>>) -> Seq<char> {
    match value {
        Some(v) => "    "@ + name + " = "@ + v + ",\r\n"@,
        None => "    "@ + name + ",\r\n"@,
    }
}

/// Each field of an enum gets a line of its own, in order, and that line
/// depends on the field alone: its name, then ` = ` and its value exactly
/// when it has one, whatever its place among the fields.
pub proof fn lemma_enum_lines_per_field(e: EnumDefineView)
    ensures
        cs_enum(e) == "public enum "@ + e.name + " {\r\n"@ + Seq::new(
            e.list.len(),
            |k: int| enum_field_line(e.list[k].0, e.list[k].1),
        ).flatten_alt() + " };\r\n\r\n"@,
{
    lemma_enum_fields_flat(e.list);
}

proof fn lemma_enum_fields_flat(l: Seq<(Seq<char>, Option<Seq<char>>)>)
    ensures
        cs_enum_fields(l) == Seq::new(l.len(), |k: int| enum_field_line(l[k].0, l[k].1)).flatten_alt(),
    decreases l.len(),
{
    let lines = Seq::new(l.len(), |k: int| enum_field_line(l[k].0, l[k].1));
    if l.len() > 0 {
        lemma_enum_fields_flat(l.drop_last());
        assert(lines.drop_last() =~= Seq::new(
            l.drop_last().len(),
            |k: int| enum_field_line(l.drop_last()[k].0, l.drop_last()[k].1),
        ));
        let f = l.last();
        match f.1 {
            Some(v) => {
                assert(cs_enum_field(f) =~= enum_field_line(f.0, f.1));
            },
            None => {
                assert(cs_enum_field(f) =~= enum_field_line(f.0, f.1));
            },
        }
        assert(lines.last() == enum_field_line(f.0, f.1));
    } else {
        assert(lines.flatten_alt() =~= Seq::<char>::empty());
    }
}

/// The C# enums of the enum declarations among `stmts`, in order.
pub open spec fn cs_enums(stmts: Seq<StmtView>) -> Seq<char>
    decreases stmts.len(),
{
    if stmts.len() == 0 {
        Seq::empty()
    } else {
        cs_enums(stmts.drop_last()) + match stmts.last() {
            StmtView::EnumDefine(e) => cs_enum(e),
            _ => Seq::empty(),
        }
    }
}

/// One field of a C# struct.
pub open spec fn cs_struct_item(i: StructItemView) -> Seq<char> {
    "    public "@ + cs_type(i.typ) + "  "@ + i.name + ";\r\n"@
}

/// The fields of a C# struct, in order.
pub open spec fn cs_struct_items(items: Seq<StructItemView>) -> Seq<char>
    decreases items.len(),
{
    if items.len() == 0 {
        Seq::empty()
    } else {
        cs_struct_items(items.drop_last()) + cs_struct_item(items.last())
    }
}

/// A C# struct.
pub open spec fn cs_struct(name: Seq<char>, items: Seq<StructItemView>) -> Seq<char> {
    "public struct "@ + name + " {\r\n"@ + cs_struct_items(items) + "};\r\n\r\n"@
}

/// The C# structs of the struct definitions among `stmts`, in order.
pub open spec fn cs_structs(stmts: Seq<StmtView>) -> Seq<char>
    decreases stmts.len(),
{
    if stmts.len() == 0 {
        Seq::empty()
    } else {
        cs_structs(stmts.drop_last()) + match stmts.last() {
            StmtView::TypedefStruct(n, st) => cs_struct(n, st.items),
            _ => Seq::empty(),
        }
    }
}

/// One C# parameter.
pub open spec fn cs_param(p: FuncParamView) -> Seq<char> {
    cs_type(p.typ) + " "@ + p.name
}

/// C# parameters, separated by `,`.
pub open spec fn cs_params(ps: Seq<FuncParamView>) -> Seq<char>
    decreases ps.len(),
{
    if ps.len() == 0 {
        Seq::empty()
    } else if ps.len() == 1 {
        cs_param(ps[0])
    } else {
        cs_params(ps.drop_last()) + ","@ + cs_param(ps.last())
    }
}

/// The `DllImport` declaration of a function, against the library `dll`.
pub open spec fn cs_function(dll: Seq<char>, f: FunctionDefineView) -> Seq<char> {
    "    [DllImport(\""@ + dll + "\")]\r\n"@ + "    public static extern "@ + cs_type(f.ret_type)
        + " "@ + f.name + "("@ + cs_params(f.params) + ");\r\n"@ + "\r\n"@
}

/// The `DllImport` declarations of the function declarations among
/// `stmts`, in order.
pub open spec fn cs_functions(dll: Seq<char>, stmts: Seq<StmtView>) -> Seq<char>
    decreases stmts.len(),
{
    if stmts.len() == 0 {
        Seq::empty()
    } else {
        cs_functions(dll, stmts.drop_last()) + match stmts.last() {
            StmtView::FuncDefine(f) => cs_function(dll, f),
            _ => Seq::empty(),
        }
    }
}

/// `s` with each `-` replaced by `_`.
pub open spec fn dash_to_underscore(s: Seq<char>) -> Seq<char> {
    s.map_values(|c: char| if c == '-' { '_' } else { c })
}

/// The C# source generated for a header: the enums, the structs, then a
/// static class named after the header (with `-` made `_`) that imports each
/// function from the library `dll`.
pub open spec fn cs_file(file: FFIFileView, dll: Seq<char>) -> Seq<char> {
    "using System.Runtime.InteropServices;\r\n"@ + cs_enums(file.stmts) + cs_structs(file.stmts)
        + "public static class "@ + dash_to_underscore(file.name) + " {\r\n\r\n"@
        + cs_functions(dll, file.stmts) + "\r\n}"@
}

/// `str::replace("-", "_")`: the string with each `-` replaced by `_`.
pub fn replace_dash(s: &String) -> (r: String)
    ensures
        r@ == dash_to_underscore(s@),
{
    let cs = crate::text::chars_of(s.as_str());
    let mut r = String::new();
    let mut i: usize = 0;
    while i < cs.len()
        invariant
            i <= cs.len(),
            cs@ == s@,
            r@ == dash_to_underscore(s@.take(i as int)),
        decreases cs.len() - i,
    {
        let c = cs[i];
        string_push(&mut r, if c == '-' { '_' } else { c });
        proof {
            assert(dash_to_underscore(s@.take(i + 1)) =~= dash_to_underscore(s@.take(i as int)).push(
                if c == '-' { '_' } else { c },
            ));
        }
        i = i + 1;
    }
    proof {
        assert(s@.take(cs.len() as int) =~= s@);
    }
    r
}

/// The generator of C# bindings.
pub struct CSharpGen;

impl CSharpGen {
    /// Appends the C# spelling of `typ`.
    pub fn write_type(output: &mut String, typ: &DataTypeFull)
        ensures
            final(output)@ == old(output)@ + cs_type(typ@),
    {
        if typ.is_ptr {
            if let DataType::Custom(s) = &typ.typ {
                if string_eq_str(s, "char") {
                    output.append("[MarshalAs(UnmanagedType.LPUTF8Str)] string");
                    return ;
                }
            }
            output.append("IntPtr");
            return ;
        }
        match &typ.typ {
            DataType::Void => {
                output.append("void");
            },
            DataType::Bool => {
                output.append("bool");
            },
            DataType::Float => {
                output.append("float");
            },
            DataType::String => {
                output.append("string");
            },
            DataType::U32 => {
                output.append("uint");
            },
            DataType::U64 => {
                output.append("ulong");
            },
            DataType::Custom(c) => {
                output.append(c.as_str());
            },
            DataType::U8 => {
                proof {
                    assert(old(output)@ + Seq::<char>::empty() =~= old(output)@);
                }
            },
        }
    }

    /// Appends the C# enums of the file's enum declarations.
    pub fn on_process_enums(output: &mut String, ffi_file: &FFIFile)
        ensures
            final(output)@ == old(output)@ + cs_enums(ffi_file@.stmts),
    {
        let n = ffi_file.stmts.len();
        let mut idx: usize = 0;
        while idx < n
            invariant
                n == ffi_file.stmts.len(),
                idx <= n,
                output@ == old(output)@ + cs_enums(ffi_file@.stmts.take(idx as int)),
            decreases n - idx,
        {
            let ghost before = output@;
            let stmt = &ffi_file.stmts[idx];
            if let Stmt::EnumDefine(enum_define) = stmt {
                output.append("public enum ");
                output.append(enum_define.name.as_str());
                output.append(" {\r\n");
                let m = enum_define.list.len();
                let mut k: usize = 0;
                let ghost head = output@;
                while k < m
                    invariant
                        m == enum_define.list.len(),
                        k <= m,
                        output@ == head + cs_enum_fields(enum_define@.list.take(k as int)),
                    decreases m - k,
                {
                    let ghost b2 = output@;
                    let field = &enum_define.list[k];
                    output.append("    ");
                    output.append(field.0.as_str());
                    if let Some(value) = &field.1 {
                        output.append(" = ");
                        output.append(value.as_str());
                    }
                    output.append(",\r\n");
                    proof {
                        let l = enum_define@.list;
                        assert(l.take(k + 1).drop_last() =~= l.take(k as int));
                        assert(l[k as int] == crate::ffi_file::enum_field_view(*field));
                        assert(output@ =~= b2 + cs_enum_field(l[k as int]));
                    }
                    k = k + 1;
                }
                output.append(" };\r\n\r\n");
                proof {
                    assert(enum_define@.list.take(m as int) =~= enum_define@.list);
                    assert(output@ =~= before + cs_enum(enum_define@));
                }
            }
            proof {
                let st = ffi_file@.stmts;
                assert(st.take(idx + 1).drop_last() =~= st.take(idx as int));
                assert(st[idx as int] == stmt@);
                if !(stmt@ is EnumDefine) {
                    assert(output@ =~= before + Seq::<char>::empty());
                }
            }
            idx = idx + 1;
        }
        proof {
            assert(ffi_file@.stmts.take(n as int) =~= ffi_file@.stmts);
        }
    }

    /// Appends the C# structs of the file's struct definitions.
    pub fn on_process_structs(output: &mut String, ffi_file: &FFIFile)
        ensures
            final(output)@ == old(output)@ + cs_structs(ffi_file@.stmts),
    {
        let n = ffi_file.stmts.len();
        let mut idx: usize = 0;
        while idx < n
            invariant
                n == ffi_file.stmts.len(),
                idx <= n,
                output@ == old(output)@ + cs_structs(ffi_file@.stmts.take(idx as int)),
            decreases n - idx,
        {
            let ghost before = output@;
            let stmt = &ffi_file.stmts[idx];
            if let Stmt::TypedefStruct(name, struct_type) = stmt {
                output.append("public struct ");
                output.append(name.as_str());
                output.append(" {\r\n");
                let m = struct_type.items.len();
                let mut k: usize = 0;
                let ghost head = output@;
                while k < m
                    invariant
                        m == struct_type.items.len(),
                        k <= m,
                        output@ == head + cs_struct_items(struct_type@.items.take(k as int)),
                    decreases m - k,
                {
                    let ghost b2 = output@;
                    let item = &struct_type.items[k];
                    output.append("    public ");
                    CSharpGen::write_type(output, &item.typ);
                    output.append("  ");
                    output.append(item.name.as_str());
                    output.append(";\r\n");
                    proof {
                        let l = struct_type@.items;
                        assert(l.take(k + 1).drop_last() =~= l.take(k as int));
                        assert(l[k as int] == item@);
                        assert(output@ =~= b2 + cs_struct_item(l[k as int]));
                    }
                    k = k + 1;
                }
                output.append("};\r\n\r\n");
                proof {
                    assert(struct_type@.items.take(m as int) =~= struct_type@.items);
                    assert(output@ =~= before + cs_struct(name@, struct_type@.items));
                }
            }
            proof {
                let st = ffi_file@.stmts;
                assert(st.take(idx + 1).drop_last() =~= st.take(idx as int));
                assert(st[idx as int] == stmt@);
                if !(stmt@ is TypedefStruct) {
                    assert(output@ =~= before + Seq::<char>::empty());
                }
            }
            idx = idx + 1;
        }
        proof {
            assert(ffi_file@.stmts.take(n as int) =~= ffi_file@.stmts);
        }
    }

    /// Appends the `DllImport` declaration of one function.
    fn write_function(output: &mut String, dll_name: &String, func_def: &FunctionDefine)
        ensures
            final(output)@ == old(output)@ + cs_function(dll_name@, func_def@),
    {
        output.append("    [DllImport(\"");
        output.append(dll_name.as_str());
        output.append("\")]\r\n");
        output.append("    public static extern ");
        CSharpGen::write_type(output, &func_def.ret_type);
        output.append(" ");
        output.append(func_def.name.as_str());
        string_push(output, '(');
        let ghost head = output@;
        let n = func_def.params.len();
        let mut idx: usize = 0;
        while idx < n
            invariant
                n == func_def.params.len(),
                idx <= n,
                output@ == head + cs_params(func_def@.params.take(idx as int)),
            decreases n - idx,
        {
            let param = &func_def.params[idx];
            if idx > 0 {
                string_push(output, ',');
            }
            let ghost b2 = output@;
            CSharpGen::write_type(output, &param.typ);
            output.append(" ");
            output.append(param.name.as_str());
            proof {
                reveal_strlit(",");
                let ps = func_def@.params;
                assert(ps.take(idx + 1).drop_last() =~= ps.take(idx as int));
                assert(ps.take(idx + 1).last() == param@);
                assert(output@ =~= b2 + cs_param(param@));
                if idx == 0 {
                    assert(ps.take(0) =~= Seq::<FuncParamView>::empty());
                    assert(output@ =~= head + cs_params(ps.take(idx + 1)));
                } else {
                    assert(output@ =~= head + cs_params(ps.take(idx as int)) + ","@ + cs_param(param@));
                }
            }
            idx = idx + 1;
        }
        output.append(");\r\n");
        output.append("\r\n");
        proof {
            reveal_strlit("(");
            assert(func_def@.params.take(n as int) =~= func_def@.params);
        }
    }
}

impl IGenerator for CSharpGen {
    /// The C# file of the header, with the DLL named in the settings.
    open spec fn output(&self, file: FFIFileView, config: ParseGenConfig) -> Option<Seq<char>> {
        Some(cs_file(file, config.dll_name@))
    }

    fn on_process(&self, ffi_file: &FFIFile, config: &ParseGenConfig) -> (r: Result<String, GenError>)
        ensures
            r matches Ok(s) && s@ == cs_file(ffi_file@, config.dll_name@),
    {
        let real_class_name = replace_dash(&ffi_file.name);
        let mut output = String::new();
        output.append("using System.Runtime.InteropServices;\r\n");
        CSharpGen::on_process_enums(&mut output, ffi_file);
        CSharpGen::on_process_structs(&mut output, ffi_file);
        output.append("public static class ");
        output.append(real_class_name.as_str());
        output.append(" {\r\n\r\n");
        let n = ffi_file.stmts.len();
        let mut idx: usize = 0;
        let ghost head = output@;
        while idx < n
            invariant
                n == ffi_file.stmts.len(),
                idx <= n,
                output@ == head + cs_functions(config.dll_name@, ffi_file@.stmts.take(idx as int)),
            decreases n - idx,
        {
            let ghost before = output@;
            let stmt = &ffi_file.stmts[idx];
            if let Stmt::FuncDefine(func_def) = stmt {
                CSharpGen::write_function(&mut output, &config.dll_name, func_def);
            }
            proof {
                let st = ffi_file@.stmts;
                assert(st.take(idx + 1).drop_last() =~= st.take(idx as int));
                assert(st[idx as int] == stmt@);
                if !(stmt@ is FuncDefine) {
                    assert(output@ =~= before + Seq::<char>::empty());
                }
            }
            idx = idx + 1;
        }
        output.append("\r\n}");
        proof {
            assert(ffi_file@.stmts.take(n as int) =~= ffi_file@.stmts);
            assert(output@ =~= cs_file(ffi_file@, config.dll_name@));
        }
        Ok(output)
    }
}

} // verus!
