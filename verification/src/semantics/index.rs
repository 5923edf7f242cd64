//! The index of a program: its functions, types and traits by name.

use crate::ast::{
    functions_view, EnumDef, EnumView, Function, FunctionView, StructDef, StructView, TraitDef,
    TraitView, TypeName, TypeView,
};
use crate::semantics::names::{enums_view, structs_view, traits_view};
use vstd::prelude::*;

verus! {

/// A field in the layout of a struct.
#[derive(Debug, PartialEq, Eq)]
pub struct LayoutField {
    pub name: String,
    pub ty: TypeName,
}

/// A field in the layout of a struct as a mathematical value.
#[verifier::ext_equal]
pub struct LayoutFieldView {
    pub name: Seq<char>,
    pub ty: TypeView,
}

impl View for LayoutField {
    type V = LayoutFieldView;

    open spec fn view(&self) -> LayoutFieldView {
        LayoutFieldView { name: self.name@, ty: self.ty@ }
    }
}

/// The fields of a layout as mathematical values.
pub open spec fn layout_fields_view(fields: Seq<LayoutField>) -> Seq<LayoutFieldView> {
    Seq::new(fields.len(), |i: int| fields[i]@)
}

/// The layout of a struct: its fields, with those of embedded structs in their
/// place.
#[derive(Debug, PartialEq, Eq)]
pub struct StructLayout {
    pub name: String,
    pub fields: Vec<LayoutField>,
}

/// The layout of a struct as a mathematical value.
#[verifier::ext_equal]
pub struct LayoutView {
    pub name: Seq<char>,
    pub fields: Seq<LayoutFieldView>,
}

impl View for StructLayout {
    type V = LayoutView;

    open spec fn view(&self) -> LayoutView {
        LayoutView { name: self.name@, fields: layout_fields_view(self.fields@) }
    }
}

/// Layouts as mathematical values.
pub open spec fn layouts_view(layouts: Seq<StructLayout>) -> Seq<LayoutView> {
    Seq::new(layouts.len(), |i: int| layouts[i]@)
}

/// The index of a program. Within each list no name stands twice, and the flags
/// of purity stand in the order of the functions.
#[derive(Debug, PartialEq, Eq)]
pub struct ProgramIndex {
    pub functions: Vec<Function>,
    pub structs: Vec<StructDef>,
    pub enums: Vec<EnumDef>,
    pub traits: Vec<TraitDef>,
    pub struct_layouts: Vec<StructLayout>,
    pub pure_functions: Vec<bool>,
}

/// The index of a program as a mathematical value.
#[verifier::ext_equal]
pub struct IndexView {
    pub functions: Seq<FunctionView>,
    pub structs: Seq<StructView>,
    pub enums: Seq<EnumView>,
    pub traits: Seq<TraitView>,
    pub struct_layouts: Seq<LayoutView>,
    pub pure_functions: Seq<bool>,
}

impl View for ProgramIndex {
    type V = IndexView;

    open spec fn view(&self) -> IndexView {
        IndexView {
            functions: functions_view(self.functions@),
            structs: structs_view(self.structs@),
            enums: enums_view(self.enums@),
            traits: traits_view(self.traits@),
            struct_layouts: layouts_view(self.struct_layouts@),
            pure_functions: self.pure_functions@,
        }
    }
}

} // verus!
