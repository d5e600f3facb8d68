//! The header grammar as the parser reads it: for each parsing step, the
//! result it yields and the index it leaves the cursor at, as a function of
//! the header's characters and the index it starts from.
use vstd::prelude::*;
use crate::ffi_file::{
    DataTypeFullView, DataTypeView, EnumDefineView, FuncParamView, FunctionDefineView,
    StmtView, StructItemView, StructTypeView,
};
use crate::lex_string::{peek_at, scan_end};
use crate::parser::{
    ParseErrorView, TokenView, lemma_next_token, lemma_scan_end, lemma_skip_white,
    spec_cast_sym, spec_next_token, spec_skip_white,
};

verus! {

/// The type a token names where a type is expected: a built-in type, or a
/// symbol as a named type.
pub open spec fn type_of_token(t: TokenView) -> Option<DataTypeView> {
    match t {
        TokenView::Type(d) => Some(d),
        TokenView::Symbol(n) => Some(DataTypeView::Custom(n)),
        _ => None,
    }
}

/// A step that fails because the text ended leaves the cursor at the end.
pub open spec fn eof_at_end<T>(r: (Result<T, ParseErrorView>, int), len: int) -> bool {
    (r.0 is Err && r.0->Err_0 is EOF) ==> r.1 == len
}

/// The index after consuming one character at `i`, if there is one.
pub open spec fn spec_step(s: Seq<char>, i: int) -> int {
    if 0 <= i < s.len() {
        i + 1
    } else {
        i
    }
}

/// Reads an optional `*` after a type: the type is a pointer type when the
/// first character after the skip between tokens is `*`.
pub open spec fn spec_fill_data_type(s: Seq<char>, i: int, typ: DataTypeView) -> (
    DataTypeFullView,
    int,
) {
    let k = spec_skip_white(s, i);
    if peek_at(s, k, 1) == Some('*') {
        (DataTypeFullView { typ, is_ptr: true }, k + 1)
    } else {
        (DataTypeFullView { typ, is_ptr: false }, k)
    }
}

/// The items of a struct body, from `i` up to its `}`, appended to `items`.
/// Each item is an optional `struct`, a type, an optional `*` and a name.
pub open spec fn spec_struct_items(s: Seq<char>, i: int, items: Seq<StructItemView>) -> (
    Result<Seq<StructItemView>, ParseErrorView>,
    int,
)
    decreases s.len() - i,
    when 0 <= i <= s.len()
{
    let (t, j) = spec_next_token(s, i, false);
    match t {
        Err(e) => (Err(e), j),
        Ok(TokenView::RightBrace) => (Ok(items), j),
        Ok(t0) => {
            let (r1, j1) = if t0 is Struct {
                spec_next_token(s, j, false)
            } else {
                (Ok(t0), j)
            };
            match r1 {
                Err(e) => (Err(e), j1),
                Ok(t1) => match type_of_token(t1) {
                    None => (Err(ParseErrorView::ErrType(t1)), j1),
                    Some(d) => {
                        let (full, j2) = spec_fill_data_type(s, j1, d);
                        let (t3, j3) = spec_next_token(s, j2, true);
                        match t3 {
                            Err(e) => (Err(e), j3),
                            Ok(t3) => match spec_cast_sym(t3) {
                                Err(e) => (Err(e), j3),
                                Ok(name) => {
                                    proof {
                                        lemma_struct_item_step(s, i);
                                    }
                                    spec_struct_items(
                                        s,
                                        j3,
                                        items.push(StructItemView { typ: full, name }),
                                    )
                                },
                            },
                        }
                    },
                },
            }
        },
    }
}

/// After a struct's `}`: the text up to the next `;` is passed over together
/// with the `;`.
pub open spec fn spec_semicolon_tail(s: Seq<char>, j: int) -> int {
    let e = scan_end(s, j, seq![';'], false);
    if e > j {
        spec_step(s, e)
    } else {
        j
    }
}

/// A struct body whose `{` has been read.
pub open spec fn spec_parse_struct(s: Seq<char>, i: int) -> (
    Result<StructTypeView, ParseErrorView>,
    int,
) {
    let (r, j) = spec_struct_items(s, i, Seq::empty());
    match r {
        Err(e) => (Err(e), j),
        Ok(items) => (Ok(StructTypeView { items }), spec_semicolon_tail(s, j)),
    }
}

/// The fields of an enum body, from `i` up to its `}`, appended to `list`.
/// A field is a name, optionally `=` and a value; fields are separated by
/// `,`; a field with a value that is followed by anything but `,` ends the
/// body.
pub open spec fn spec_enum_items(
    s: Seq<char>,
    i: int,
    list: Seq<(Seq<char>, Option<Seq<char>>)>,
) -> (Result<Seq<(Seq<char>, Option<Seq<char>>)>, ParseErrorView>, int)
    decreases s.len() - i,
    when 0 <= i <= s.len()
{
    let (t1, j1) = spec_next_token(s, i, true);
    match t1 {
        Err(e) => (Err(e), j1),
        Ok(TokenView::RightBrace) => (Ok(list), j1),
        Ok(f) => match spec_cast_sym(f) {
            Err(e) => (Err(e), j1),
            Ok(field) => {
                let (t2, j2) = spec_next_token(s, j1, false);
                match t2 {
                    Err(e) => (Err(e), j2),
                    Ok(TokenView::Eq) => {
                        let (t3, j3) = spec_next_token(s, j2, true);
                        match t3 {
                            Err(e) => (Err(e), j3),
                            Ok(v) => match spec_cast_sym(v) {
                                Err(e) => (Err(e), j3),
                                Ok(value) => {
                                    let list2 = list.push((field, Some(value)));
                                    let (t4, j4) = spec_next_token(s, j3, false);
                                    match t4 {
                                        Err(e) => (Err(e), j4),
                                        Ok(TokenView::Comma) => {
                                            proof {
                                                lemma_enum_item_step(s, i);
                                            }
                                            spec_enum_items(s, j4, list2)
                                        },
                                        Ok(_) => (Ok(list2), j4),
                                    }
                                },
                            },
                        }
                    },
                    Ok(TokenView::Comma) => {
                        proof {
                            lemma_enum_item_step(s, i);
                        }
                        spec_enum_items(s, j2, list.push((field, None)))
                    },
                    Ok(TokenView::RightBrace) => (Ok(list), j2),
                    Ok(_) => (Err(ParseErrorView::ErrEnumFormat), j2),
                }
            },
        },
    }
}

/// An enum after its `enum` keyword: a name, `{`, and the body.
pub open spec fn spec_parse_enum(s: Seq<char>, i: int) -> (
    Result<EnumDefineView, ParseErrorView>,
    int,
) {
    let (t, j) = spec_next_token(s, i, true);
    match t {
        Err(e) => (Err(e), j),
        Ok(t) => match spec_cast_sym(t) {
            Err(e) => (Err(e), j),
            Ok(name) => {
                let (t2, j2) = spec_next_token(s, j, false);
                match t2 {
                    Err(e) => (Err(e), j2),
                    Ok(t2) => if !(t2 is LeftBrace) {
                        (Err(ParseErrorView::ErrEnumFormat), j2)
                    } else {
                        let (r, j3) = spec_enum_items(s, j2, Seq::empty());
                        match r {
                            Err(e) => (Err(e), j3),
                            Ok(list) => (Ok(EnumDefineView { name, list }), j3),
                        }
                    },
                }
            },
        },
    }
}

/// The token that names a parameter's type, given the first token `t0` of
/// the parameter read up to `j`: up to two leading `struct`, `const` or `,`
/// tokens are passed over (after the first, only `struct` or `const`).
pub open spec fn spec_param_type_token(s: Seq<char>, j: int, t0: TokenView) -> (
    Result<TokenView, ParseErrorView>,
    int,
) {
    if t0 is Struct || t0 is Const || t0 is Comma {
        let (t1, j1) = spec_next_token(s, j, false);
        match t1 {
            Err(e) => (Err(e), j1),
            Ok(t1) => if t1 is Struct || t1 is Const {
                spec_next_token(s, j1, false)
            } else {
                (Ok(t1), j1)
            },
        }
    } else {
        (Ok(t0), j)
    }
}

/// The parameters of a parameter list whose `(` has been read, from `i` up
/// to its `)`, appended to `ps`. A `void` is passed over; a parameter is a
/// type, an optional `*` and a name.
pub open spec fn spec_params(s: Seq<char>, i: int, ps: Seq<FuncParamView>) -> (
    Result<Seq<FuncParamView>, ParseErrorView>,
    int,
)
    decreases s.len() - i,
    when 0 <= i <= s.len()
{
    let (t, j) = spec_next_token(s, i, false);
    match t {
        Err(e) => (Err(e), j),
        Ok(TokenView::RightParent) => (Ok(ps), j),
        Ok(TokenView::Type(DataTypeView::Void)) => {
            proof {
                lemma_next_token(s, i, false);
            }
            spec_params(s, j, ps)
        },
        Ok(t0) => {
            let (r1, j1) = spec_param_type_token(s, j, t0);
            match r1 {
                Err(e) => (Err(e), j1),
                Ok(tt) => match type_of_token(tt) {
                    None => (Err(ParseErrorView::ErrToken(tt)), j1),
                    Some(d) => {
                        let (full, j2) = spec_fill_data_type(s, j1, d);
                        let (t3, j3) = spec_next_token(s, j2, false);
                        match t3 {
                            Err(e) => (Err(e), j3),
                            Ok(t3) => match spec_cast_sym(t3) {
                                Err(e) => (Err(e), j3),
                                Ok(name) => {
                                    let ps2 = ps.push(FuncParamView { name, typ: full });
                                    let (t4, j4) = spec_next_token(s, j3, false);
                                    match t4 {
                                        Err(e) => (Err(e), j4),
                                        Ok(TokenView::RightParent) => (Ok(ps2), j4),
                                        Ok(_) => {
                                            proof {
                                                lemma_param_step(s, i);
                                            }
                                            spec_params(s, j4, ps2)
                                        },
                                    }
                                },
                            },
                        }
                    },
                },
            }
        },
    }
}

/// A function pointer type after `typedef <type> (`: `*`, a name, `)`, `(`
/// and the parameters.
pub open spec fn spec_parse_fn_ptr(s: Seq<char>, i: int, typ: DataTypeView) -> (
    Result<FunctionDefineView, ParseErrorView>,
    int,
) {
    let i1 = spec_step(s, i);
    let (t, j) = spec_next_token(s, i1, true);
    match t {
        Err(e) => (Err(e), j),
        Ok(t) => match spec_cast_sym(t) {
            Err(e) => (Err(e), j),
            Ok(name) => {
                let (t2, j2) = spec_next_token(s, j, false);
                match t2 {
                    Err(e) => (Err(e), j2),
                    Ok(_) => {
                        let (t3, j3) = spec_next_token(s, j2, false);
                        match t3 {
                            Err(e) => (Err(e), j3),
                            Ok(_) => {
                                let (r, j4) = spec_params(s, j3, Seq::empty());
                                match r {
                                    Err(e) => (Err(e), j4),
                                    Ok(params) => (
                                        Ok(
                                            FunctionDefineView {
                                                ret_type: DataTypeFullView { typ, is_ptr: false },
                                                name,
                                                params,
                                            },
                                        ),
                                        j4,
                                    ),
                                }
                            },
                        }
                    },
                }
            },
        },
    }
}

/// The token that names a return type, given the first token `t0`: up to
/// two leading `struct` or `const` tokens are passed over.
pub open spec fn spec_ret_type_token(s: Seq<char>, j: int, t0: TokenView) -> (
    Result<TokenView, ParseErrorView>,
    int,
) {
    if t0 is Struct || t0 is Const {
        let (t1, j1) = spec_next_token(s, j, false);
        match t1 {
            Err(e) => (Err(e), j1),
            Ok(t1) => if t1 is Struct || t1 is Const {
                spec_next_token(s, j1, false)
            } else {
                (Ok(t1), j1)
            },
        }
    } else {
        (Ok(t0), j)
    }
}

/// A function declaration whose first token `tok` has been read: the rest of
/// the return type, an optional `*`, the name, one character (the `(`) and
/// the parameters.
pub open spec fn spec_parse_func_define(s: Seq<char>, i: int, tok: TokenView) -> (
    Result<FunctionDefineView, ParseErrorView>,
    int,
) {
    let k = spec_skip_white(s, i);
    let (r, j) = spec_ret_type_token(s, k, tok);
    match r {
        Err(e) => (Err(e), j),
        Ok(tt) => match type_of_token(tt) {
            None => (Err(ParseErrorView::ErrToken(tt)), j),
            Some(d) => {
                let (full, j2) = spec_fill_data_type(s, j, d);
                let k2 = spec_skip_white(s, j2);
                let (t, j3) = spec_next_token(s, k2, true);
                match t {
                    Err(e) => (Err(e), j3),
                    Ok(t) => match spec_cast_sym(t) {
                        Err(e) => (Err(e), j3),
                        Ok(name) => {
                            let j4 = spec_step(s, j3);
                            let (r2, j5) = spec_params(s, j4, Seq::empty());
                            match r2 {
                                Err(e) => (Err(e), j5),
                                Ok(params) => (
                                    Ok(FunctionDefineView { ret_type: full, name, params }),
                                    j5,
                                ),
                            }
                        },
                    },
                }
            },
        },
    }
}

/// One top-level declaration.
pub open spec fn spec_parse_item(s: Seq<char>, i: int) -> (Result<StmtView, ParseErrorView>, int) {
    let (t, j) = spec_next_token(s, i, false);
    match t {
        Err(e) => (Err(e), j),
        Ok(TokenView::Typedef) => {
            let (t2, j2) = spec_next_token(s, j, false);
            match t2 {
                Err(e) => (Err(e), j2),
                Ok(TokenView::Struct) => {
                    let (t3, j3) = spec_next_token(s, j2, true);
                    match t3 {
                        Err(e) => (Err(e), j3),
                        Ok(t3) => match spec_cast_sym(t3) {
                            Err(e) => (Err(e), j3),
                            Ok(new_name) => {
                                let (t4, j4) = spec_next_token(s, j3, true);
                                match t4 {
                                    Err(e) => (Err(e), j4),
                                    Ok(TokenView::LeftBrace) => {
                                        let (st, j5) = spec_parse_struct(s, j4);
                                        match st {
                                            Err(e) => (Err(e), j5),
                                            Ok(st) => (Ok(StmtView::TypedefStruct(new_name, st)), j5),
                                        }
                                    },
                                    Ok(t4) => match spec_cast_sym(t4) {
                                        Err(e) => (Err(e), j4),
                                        Ok(alias) => (
                                            Ok(StmtView::TypedefStructName(new_name, alias)),
                                            j4,
                                        ),
                                    },
                                }
                            },
                        },
                    }
                },
                Ok(TokenView::Type(typ)) => {
                    let (t3, j3) = spec_next_token(s, j2, true);
                    match t3 {
                        Err(e) => (Err(e), j3),
                        Ok(TokenView::LeftParent) => {
                            let (f, j4) = spec_parse_fn_ptr(s, j3, typ);
                            match f {
                                Err(e) => (Err(e), j4),
                                Ok(f) => (Ok(StmtView::TypeDefFuncPtr(f)), j4),
                            }
                        },
                        Ok(t3) => match spec_cast_sym(t3) {
                            Err(e) => (Err(e), j3),
                            Ok(name) => (Ok(StmtView::Typedef(typ, name)), j3),
                        },
                    }
                },
                Ok(t2) => (Err(ParseErrorView::ErrToken(t2)), j2),
            }
        },
        Ok(TokenView::Enum) => {
            let (e, j2) = spec_parse_enum(s, j);
            match e {
                Err(err) => (Err(err), j2),
                Ok(e) => (Ok(StmtView::EnumDefine(e)), j2),
            }
        },
        Ok(tok) => {
            let (f, j2) = spec_parse_func_define(s, j, tok);
            match f {
                Err(e) => (Err(e), j2),
                Ok(f) => (Ok(StmtView::FuncDefine(f)), j2),
            }
        },
    }
}

/// The declarations of a header from `i` on, appended to `acc`: each
/// declaration read is kept, a declaration that fails is passed over, and
/// reading stops at the end of the text.
pub open spec fn spec_parse_stmts(s: Seq<char>, i: int, acc: Seq<StmtView>) -> Seq<StmtView>
    decreases s.len() - i,
    when 0 <= i <= s.len()
{
    let (r, j) = spec_parse_item(s, i);
    match r {
        Ok(st) => {
            proof {
                lemma_parse_item(s, i);
            }
            spec_parse_stmts(s, j, acc.push(st))
        },
        Err(ParseErrorView::EOF) => acc,
        Err(_) => {
            proof {
                lemma_parse_item(s, i);
            }
            spec_parse_stmts(s, j, acc)
        },
    }
}

// ---------------------------------------------------------------------------
// Every step moves the cursor forward and stays within the text.
pub proof fn lemma_fill_data_type(s: Seq<char>, i: int, typ: DataTypeView)
    requires
        0 <= i <= s.len(),
    ensures
        i <= spec_fill_data_type(s, i, typ).1 <= s.len(),
{
    lemma_skip_white(s, i);
}

pub proof fn lemma_struct_item_step(s: Seq<char>, i: int)
    requires
        0 <= i <= s.len(),
    ensures
        ({
            let (t, j) = spec_next_token(s, i, false);
            t is Ok ==> {
                let t0 = t->Ok_0;
                let (r1, j1) = if t0 is Struct {
                    spec_next_token(s, j, false)
                } else {
                    (Ok(t0), j)
                };
                &&& i < j <= j1 <= s.len()
                &&& (r1 is Ok && type_of_token(r1->Ok_0) is Some) ==> {
                    let (full, j2) = spec_fill_data_type(s, j1, type_of_token(r1->Ok_0)->Some_0);
                    let (t3, j3) = spec_next_token(s, j2, true);
                    j1 <= j2 <= j3 <= s.len()
                }
            }
        }),
{
    lemma_next_token(s, i, false);
    let (t, j) = spec_next_token(s, i, false);
    if t is Ok {
        lemma_next_token(s, j, false);
        let t0 = t->Ok_0;
        let (r1, j1) = if t0 is Struct {
            spec_next_token(s, j, false)
        } else {
            (Ok(t0), j)
        };
        if r1 is Ok && type_of_token(r1->Ok_0) is Some {
            lemma_fill_data_type(s, j1, type_of_token(r1->Ok_0)->Some_0);
            let (full, j2) = spec_fill_data_type(s, j1, type_of_token(r1->Ok_0)->Some_0);
            lemma_next_token(s, j2, true);
        }
    }
}

pub proof fn lemma_enum_item_step(s: Seq<char>, i: int)
    requires
        0 <= i <= s.len(),
    ensures
        ({
            let (t1, j1) = spec_next_token(s, i, true);
            let (t2, j2) = spec_next_token(s, j1, false);
            let (t3, j3) = spec_next_token(s, j2, true);
            let (t4, j4) = spec_next_token(s, j3, false);
            t1 is Ok ==> {
                &&& i < j1 <= j2 <= j3 <= j4 <= s.len()
                &&& t2 is Ok ==> j1 < j2
            }
        }),
{
    lemma_next_token(s, i, true);
    let (t1, j1) = spec_next_token(s, i, true);
    if t1 is Ok {
        lemma_next_token(s, j1, false);
        let (t2, j2) = spec_next_token(s, j1, false);
        lemma_next_token(s, j2, true);
        let (t3, j3) = spec_next_token(s, j2, true);
        lemma_next_token(s, j3, false);
    }
}

pub proof fn lemma_param_type_token(s: Seq<char>, j: int, t0: TokenView)
    requires
        0 <= j <= s.len(),
    ensures
        j <= spec_param_type_token(s, j, t0).1 <= s.len(),
        j <= spec_ret_type_token(s, j, t0).1 <= s.len(),
        eof_at_end(spec_param_type_token(s, j, t0), s.len() as int),
        eof_at_end(spec_ret_type_token(s, j, t0), s.len() as int),
{
    lemma_next_token(s, j, false);
    let (t1, j1) = spec_next_token(s, j, false);
    lemma_next_token(s, j1, false);
}

pub proof fn lemma_param_step(s: Seq<char>, i: int)
    requires
        0 <= i <= s.len(),
    ensures
        ({
            let (t, j) = spec_next_token(s, i, false);
            t is Ok ==> {
                let (r1, j1) = spec_param_type_token(s, j, t->Ok_0);
                &&& i < j <= j1 <= s.len()
                &&& (r1 is Ok && type_of_token(r1->Ok_0) is Some) ==> {
                    let (full, j2) = spec_fill_data_type(s, j1, type_of_token(r1->Ok_0)->Some_0);
                    let (t3, j3) = spec_next_token(s, j2, false);
                    let (t4, j4) = spec_next_token(s, j3, false);
                    j1 <= j2 <= j3 <= j4 <= s.len()
                }
            }
        }),
{
    lemma_next_token(s, i, false);
    let (t, j) = spec_next_token(s, i, false);
    if t is Ok {
        lemma_param_type_token(s, j, t->Ok_0);
        let (r1, j1) = spec_param_type_token(s, j, t->Ok_0);
        if r1 is Ok && type_of_token(r1->Ok_0) is Some {
            lemma_fill_data_type(s, j1, type_of_token(r1->Ok_0)->Some_0);
            let (full, j2) = spec_fill_data_type(s, j1, type_of_token(r1->Ok_0)->Some_0);
            lemma_next_token(s, j2, false);
            let (t3, j3) = spec_next_token(s, j2, false);
            lemma_next_token(s, j3, false);
        }
    }
}

pub proof fn lemma_struct_items(s: Seq<char>, i: int, items: Seq<StructItemView>)
    requires
        0 <= i <= s.len(),
    ensures
        i <= spec_struct_items(s, i, items).1 <= s.len(),
        eof_at_end(spec_struct_items(s, i, items), s.len() as int),
    decreases s.len() - i,
{
    lemma_struct_item_step(s, i);
    lemma_next_token(s, i, false);
    let (t, j) = spec_next_token(s, i, false);
    if t is Ok && !(t->Ok_0 is RightBrace) {
        let t0 = t->Ok_0;
        lemma_next_token(s, j, false);
        let (r1, j1) = if t0 is Struct {
            spec_next_token(s, j, false)
        } else {
            (Ok(t0), j)
        };
        if r1 is Ok && type_of_token(r1->Ok_0) is Some {
            let d = type_of_token(r1->Ok_0)->Some_0;
            let (full, j2) = spec_fill_data_type(s, j1, d);
            lemma_fill_data_type(s, j1, d);
            lemma_next_token(s, j2, true);
            let (t3, j3) = spec_next_token(s, j2, true);
            if t3 is Ok && spec_cast_sym(t3->Ok_0) is Ok {
                let name = spec_cast_sym(t3->Ok_0)->Ok_0;
                lemma_struct_items(s, j3, items.push(StructItemView { typ: full, name }));
            }
        }
    }
}

pub proof fn lemma_parse_struct(s: Seq<char>, i: int)
    requires
        0 <= i <= s.len(),
    ensures
        i <= spec_parse_struct(s, i).1 <= s.len(),
        eof_at_end(spec_parse_struct(s, i), s.len() as int),
{
    lemma_struct_items(s, i, Seq::empty());
    let (r, j) = spec_struct_items(s, i, Seq::empty());
    lemma_scan_end(s, j, seq![';'], false);
}

pub proof fn lemma_enum_items(s: Seq<char>, i: int, list: Seq<(Seq<char>, Option<Seq<char>>)>)
    requires
        0 <= i <= s.len(),
    ensures
        i <= spec_enum_items(s, i, list).1 <= s.len(),
        eof_at_end(spec_enum_items(s, i, list), s.len() as int),
    decreases s.len() - i,
{
    lemma_enum_item_step(s, i);
    lemma_next_token(s, i, true);
    let (t1, j1) = spec_next_token(s, i, true);
    if t1 is Ok {
        lemma_next_token(s, j1, false);
        let (t2, j2) = spec_next_token(s, j1, false);
        lemma_next_token(s, j2, true);
        let (t3, j3) = spec_next_token(s, j2, true);
        lemma_next_token(s, j3, false);
    }
    match t1 {
        Ok(TokenView::RightBrace) => {
            assert(spec_enum_items(s, i, list) == (Ok::<Seq<(Seq<char>, Option<Seq<char>>)>, ParseErrorView>(list), j1));
        },
        Ok(f) => match spec_cast_sym(f) {
            Ok(field) => {
                let (t2, j2) = spec_next_token(s, j1, false);
                match t2 {
                    Ok(TokenView::Eq) => {
                        let (t3, j3) = spec_next_token(s, j2, true);
                        match t3 {
                            Ok(v) => match spec_cast_sym(v) {
                                Ok(value) => {
                                    let (t4, j4) = spec_next_token(s, j3, false);
                                    match t4 {
                                        Ok(TokenView::Comma) => {
                                            lemma_enum_items(s, j4, list.push((field, Some(value))));
                                        },
                                        _ => {},
                                    }
                                },
                                _ => {},
                            },
                            _ => {},
                        }
                    },
                    Ok(TokenView::Comma) => {
                        lemma_enum_items(s, j2, list.push((field, None)));
                    },
                    _ => {},
                }
            },
            _ => {},
        },
        _ => {},
    }
}

pub proof fn lemma_parse_enum(s: Seq<char>, i: int)
    requires
        0 <= i <= s.len(),
    ensures
        i <= spec_parse_enum(s, i).1 <= s.len(),
        eof_at_end(spec_parse_enum(s, i), s.len() as int),
{
    lemma_next_token(s, i, true);
    let (t, j) = spec_next_token(s, i, true);
    lemma_next_token(s, j, false);
    let (t2, j2) = spec_next_token(s, j, false);
    lemma_enum_items(s, j2, Seq::empty());
}

pub proof fn lemma_params(s: Seq<char>, i: int, ps: Seq<FuncParamView>)
    requires
        0 <= i <= s.len(),
    ensures
        i <= spec_params(s, i, ps).1 <= s.len(),
        eof_at_end(spec_params(s, i, ps), s.len() as int),
    decreases s.len() - i,
{
    lemma_param_step(s, i);
    lemma_next_token(s, i, false);
    let (t, j) = spec_next_token(s, i, false);
    if t is Ok && !(t->Ok_0 is RightParent) {
        if t->Ok_0 == TokenView::Type(DataTypeView::Void) {
            lemma_params(s, j, ps);
        } else {
            let (r1, j1) = spec_param_type_token(s, j, t->Ok_0);
            lemma_param_type_token(s, j, t->Ok_0);
            if r1 is Ok && type_of_token(r1->Ok_0) is Some {
                let d = type_of_token(r1->Ok_0)->Some_0;
                let (full, j2) = spec_fill_data_type(s, j1, d);
                lemma_fill_data_type(s, j1, d);
                lemma_next_token(s, j2, false);
                let (t3, j3) = spec_next_token(s, j2, false);
                lemma_next_token(s, j3, false);
                if t3 is Ok && spec_cast_sym(t3->Ok_0) is Ok {
                    let name = spec_cast_sym(t3->Ok_0)->Ok_0;
                    let ps2 = ps.push(FuncParamView { name, typ: full });
                    let (t4, j4) = spec_next_token(s, j3, false);
                    if t4 is Ok && !(t4->Ok_0 is RightParent) {
                        lemma_params(s, j4, ps2);
                    }
                }
            }
        }
    }
}

pub proof fn lemma_parse_fn_ptr(s: Seq<char>, i: int, typ: DataTypeView)
    requires
        0 <= i <= s.len(),
    ensures
        i <= spec_parse_fn_ptr(s, i, typ).1 <= s.len(),
        eof_at_end(spec_parse_fn_ptr(s, i, typ), s.len() as int),
{
    let i1 = spec_step(s, i);
    lemma_next_token(s, i1, true);
    let (t, j) = spec_next_token(s, i1, true);
    lemma_next_token(s, j, false);
    let (t2, j2) = spec_next_token(s, j, false);
    lemma_next_token(s, j2, false);
    let (t3, j3) = spec_next_token(s, j2, false);
    lemma_params(s, j3, Seq::empty());
}

pub proof fn lemma_parse_func_define(s: Seq<char>, i: int, tok: TokenView)
    requires
        0 <= i <= s.len(),
    ensures
        i <= spec_parse_func_define(s, i, tok).1 <= s.len(),
        eof_at_end(spec_parse_func_define(s, i, tok), s.len() as int),
{
    lemma_skip_white(s, i);
    let k = spec_skip_white(s, i);
    lemma_param_type_token(s, k, tok);
    let (r, j) = spec_ret_type_token(s, k, tok);
    if r is Ok && type_of_token(r->Ok_0) is Some {
        let d = type_of_token(r->Ok_0)->Some_0;
        lemma_fill_data_type(s, j, d);
        let (full, j2) = spec_fill_data_type(s, j, d);
        lemma_skip_white(s, j2);
        let k2 = spec_skip_white(s, j2);
        lemma_next_token(s, k2, true);
        let (t, j3) = spec_next_token(s, k2, true);
        lemma_params(s, spec_step(s, j3), Seq::empty());
    }
}

/// A declaration read moves the cursor forward within the text, and past at
/// least one character unless the text has ended.
pub proof fn lemma_parse_item(s: Seq<char>, i: int)
    requires
        0 <= i <= s.len(),
    ensures
        i <= spec_parse_item(s, i).1 <= s.len(),
        eof_at_end(spec_parse_item(s, i), s.len() as int),
        spec_parse_item(s, i).0 != Err::<StmtView, ParseErrorView>(ParseErrorView::EOF) ==> i
            < spec_parse_item(s, i).1,
{
    lemma_next_token(s, i, false);
    let (t, j) = spec_next_token(s, i, false);
    if t is Ok {
        lemma_next_token(s, j, false);
        let (t2, j2) = spec_next_token(s, j, false);
        lemma_next_token(s, j2, true);
        let (t3, j3) = spec_next_token(s, j2, true);
        lemma_next_token(s, j3, true);
        let (t4, j4) = spec_next_token(s, j3, true);
        lemma_parse_struct(s, j4);
        if t2 is Ok && t2->Ok_0 is Type {
            lemma_parse_fn_ptr(s, j3, t2->Ok_0->Type_0);
        }
        lemma_parse_enum(s, j);
        lemma_parse_func_define(s, j, t->Ok_0);
    }
}

} // verus!
