//! The declarations of a C header of the FFI layer, as the parser yields
//! them, with a mathematical view of each.
use vstd::prelude::*;

verus! {

/// A C type the FFI layer knows by name, or another named type.
#[derive(Debug, PartialEq, Eq)]
pub enum DataType {
    U8,
    U32,
    U64,
    Bool,
    String,
    Float,
    Custom(String),
    Void,
}

pub enum DataTypeView {
    U8,
    U32,
    U64,
    Bool,
    String,
    Float,
    Custom(Seq<char>),
    Void,
}

impl View for DataType {
    type V = DataTypeView;

    open spec fn view(&self) -> DataTypeView {
        match self {
            DataType::U8 => DataTypeView::U8,
            DataType::U32 => DataTypeView::U32,
            DataType::U64 => DataTypeView::U64,
            DataType::Bool => DataTypeView::Bool,
            DataType::String => DataTypeView::String,
            DataType::Float => DataTypeView::Float,
            DataType::Custom(s) => DataTypeView::Custom(s@),
            DataType::Void => DataTypeView::Void,
        }
    }
}

/// A type together with whether it is used through a pointer.
#[derive(Debug)]
pub struct DataTypeFull {
    pub typ: DataType,
    pub is_ptr: bool,
}

pub struct DataTypeFullView {
    pub typ: DataTypeView,
    pub is_ptr: bool,
}

impl View for DataTypeFull {
    type V = DataTypeFullView;

    open spec fn view(&self) -> DataTypeFullView {
        DataTypeFullView { typ: self.typ@, is_ptr: self.is_ptr }
    }
}

/// One top-level declaration of a header.
#[derive(Debug)]
pub enum Stmt {
    /// `typedef <type> <name>;`
    Typedef(DataType, String),
    /// `typedef struct <name> <alias>;`
    TypedefStructName(String, String),
    /// `typedef struct <name> { ... } <alias>;`
    TypedefStruct(String, StructType),
    /// `typedef <type> (*<name>)(<params>);`
    TypeDefFuncPtr(FunctionDefine),
    /// `<type> <name>(<params>);`
    FuncDefine(FunctionDefine),
    /// `enum <name> { ... };`
    EnumDefine(EnumDefine),
}

pub enum StmtView {
    Typedef(DataTypeView, Seq<char>),
    TypedefStructName(Seq<char>, Seq<char>),
    TypedefStruct(Seq<char>, StructTypeView),
    TypeDefFuncPtr(FunctionDefineView),
    FuncDefine(FunctionDefineView),
    EnumDefine(EnumDefineView),
}

impl View for Stmt {
    type V = StmtView;

    open spec fn view(&self) -> StmtView {
        match self {
            Stmt::Typedef(t, n) => StmtView::Typedef(t@, n@),
            Stmt::TypedefStructName(a, b) => StmtView::TypedefStructName(a@, b@),
            Stmt::TypedefStruct(n, st) => StmtView::TypedefStruct(n@, st@),
            Stmt::TypeDefFuncPtr(f) => StmtView::TypeDefFuncPtr(f@),
            Stmt::FuncDefine(f) => StmtView::FuncDefine(f@),
            Stmt::EnumDefine(e) => StmtView::EnumDefine(e@),
        }
    }
}

/// A function: its return type, its name and its parameters.
#[derive(Debug)]
pub struct FunctionDefine {
    pub ret_type: DataTypeFull,
    pub name: String,
    pub params: Vec<FuncParam>,
}

pub struct FunctionDefineView {
    pub ret_type: DataTypeFullView,
    pub name: Seq<char>,
    pub params: Seq<FuncParamView>,
}

impl View for FunctionDefine {
    type V = FunctionDefineView;

    open spec fn view(&self) -> FunctionDefineView {
        FunctionDefineView {
            ret_type: self.ret_type@,
            name: self.name@,
            params: self.params@.map_values(|p: FuncParam| p@),
        }
    }
}

#[derive(Debug)]
pub struct FuncParam {
    pub name: String,
    pub typ: DataTypeFull,
}

pub struct FuncParamView {
    pub name: Seq<char>,
    pub typ: DataTypeFullView,
}

impl View for FuncParam {
    type V = FuncParamView;

    open spec fn view(&self) -> FuncParamView {
        FuncParamView { name: self.name@, typ: self.typ@ }
    }
}

#[derive(Debug)]
pub struct StructItem {
    pub typ: DataTypeFull,
    pub name: String,
}

pub struct StructItemView {
    pub typ: DataTypeFullView,
    pub name: Seq<char>,
}

impl View for StructItem {
    type V = StructItemView;

    open spec fn view(&self) -> StructItemView {
        StructItemView { typ: self.typ@, name: self.name@ }
    }
}

#[derive(Debug)]
pub struct StructType {
    pub items: Vec<StructItem>,
}

pub struct StructTypeView {
    pub items: Seq<StructItemView>,
}

impl View for StructType {
    type V = StructTypeView;

    open spec fn view(&self) -> StructTypeView {
        StructTypeView { items: self.items@.map_values(|i: StructItem| i@) }
    }
}

/// An enum: its name and its fields, each with the value written for it.
#[derive(Debug)]
pub struct EnumDefine {
    pub name: String,
    pub list: Vec<(String, Option<String>)>,
}

pub struct EnumDefineView {
    pub name: Seq<char>,
    pub list: Seq<(Seq<char>, Option<Seq<char>>)>,
}

pub open spec fn enum_field_view(f: (String, Option<String>)) -> (Seq<char>, Option<Seq<char>>) {
    (
        f.0@,
        match f.1 {
            Some(v) => Some(v@),
            None => None,
        },
    )
}

impl View for EnumDefine {
    type V = EnumDefineView;

    open spec fn view(&self) -> EnumDefineView {
        EnumDefineView {
            name: self.name@,
            list: self.list@.map_values(|f: (String, Option<String>)| enum_field_view(f)),
        }
    }
}

/// The declarations of one header, under the header's name.
#[derive(Debug)]
pub struct FFIFile {
    pub name: String,
    pub stmts: Vec<Stmt>,
}

pub struct FFIFileView {
    pub name: Seq<char>,
    pub stmts: Seq<StmtView>,
}

impl View for FFIFile {
    type V = FFIFileView;

    open spec fn view(&self) -> FFIFileView {
        FFIFileView { name: self.name@, stmts: self.stmts@.map_values(|s: Stmt| s@) }
    }
}

} // verus!
