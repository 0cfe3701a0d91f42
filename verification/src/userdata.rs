use vstd::prelude::*;
use vstd::slice::*;

use crate::error::{refused, Error, ErrorOf, ErrorView};
use crate::machine::{
    CallKind, Callback,
};
use crate::value::Value;

verus! {

/// Metatable fields that Lua itself looks into.
#[derive(Clone, Copy, Debug, PartialEq, Eq, Structural)]
pub enum MetaKind {
    Index,
    NewIndex,
    Other,
}

/// A field of a metatable.
#[derive(Debug, PartialEq, Eq)]
pub struct MetaMethod {
    pub name: Vec<u8>,
    pub kind: MetaKind,
    /// Number under which the embedder keeps the error for a field that may not be set.
    pub restricted: Option<u64>,
}

/// A `MetaMethod` by its contents.
pub struct MetaMethodView {
    pub name: Seq<u8>,
    pub kind: MetaKind,
    pub restricted: Option<u64>,
}

impl View for MetaMethod {
    type V = MetaMethodView;

    open spec fn view(&self) -> MetaMethodView {
        MetaMethodView { name: self.name@, kind: self.kind, restricted: self.restricted }
    }
}

/// Methods of a userdata type.
#[derive(Debug, PartialEq, Eq)]
pub struct StaticUserDataMethods {
    pub methods: Vec<(Vec<u8>, Callback)>,
    pub async_methods: Vec<(Vec<u8>, Callback)>,
    pub meta_methods: Vec<(MetaMethod, Callback)>,
}

/// Fields of a userdata type. A metatable field is a number under which the embedder keeps the
/// function that computes it.
#[derive(Debug, PartialEq, Eq)]
pub struct StaticUserDataFields {
    pub field_getters: Vec<(Vec<u8>, Callback)>,
    pub field_setters: Vec<(Vec<u8>, Callback)>,
    pub meta_fields: Vec<(MetaMethod, u64)>,
}

/// Named callbacks by their contents.
pub open spec fn named(list: Seq<(Vec<u8>, Callback)>) -> Seq<(Seq<u8>, Callback)> {
    list.map_values(|e: (Vec<u8>, Callback)| (e.0@, e.1))
}

/// Metatable fields by their contents.
pub open spec fn meta_named<T>(list: Seq<(MetaMethod, T)>) -> Seq<(MetaMethodView, T)> {
    list.map_values(|e: (MetaMethod, T)| (e.0@, e.1))
}

/// A `StaticUserDataMethods` by its contents.
#[verifier::ext_equal]
pub struct MethodsView {
    pub methods: Seq<(Seq<u8>, Callback)>,
    pub async_methods: Seq<(Seq<u8>, Callback)>,
    pub meta_methods: Seq<(MetaMethodView, Callback)>,
}

/// A `StaticUserDataFields` by its contents.
#[verifier::ext_equal]
pub struct FieldsView {
    pub field_getters: Seq<(Seq<u8>, Callback)>,
    pub field_setters: Seq<(Seq<u8>, Callback)>,
    pub meta_fields: Seq<(MetaMethodView, u64)>,
}

impl View for StaticUserDataMethods {
    type V = MethodsView;

    open spec fn view(&self) -> MethodsView {
        MethodsView {
            methods: named(self.methods@),
            async_methods: named(self.async_methods@),
            meta_methods: meta_named(self.meta_methods@),
        }
    }
}

impl View for StaticUserDataFields {
    type V = FieldsView;

    open spec fn view(&self) -> FieldsView {
        FieldsView {
            field_getters: named(self.field_getters@),
            field_setters: named(self.field_setters@),
            meta_fields: meta_named(self.meta_fields@),
        }
    }
}

impl MethodsView {
    /// No methods.
    pub open spec fn none() -> MethodsView {
        MethodsView {
            methods: Seq::empty(),
            async_methods: Seq::empty(),
            meta_methods: Seq::empty(),
        }
    }

    /// With a further method.
    pub open spec fn with_method(self, name: Seq<u8>, kind: CallKind, id: u64) -> MethodsView {
        MethodsView { methods: self.methods.push((name, Callback { kind, id })), ..self }
    }

    /// With a further asynchronous method.
    pub open spec fn with_async(self, name: Seq<u8>, kind: CallKind, id: u64) -> MethodsView {
        MethodsView {
            async_methods: self.async_methods.push((name, Callback { kind, id })),
            ..self
        }
    }

    /// With a further metatable method.
    pub open spec fn with_meta(
        self,
        meta: MetaMethodView,
        kind: CallKind,
        id: u64,
    ) -> MethodsView {
        MethodsView {
            meta_methods: self.meta_methods.push((meta, Callback { kind, id })),
            ..self
        }
    }
}

impl FieldsView {
    /// No fields.
    pub open spec fn none() -> FieldsView {
        FieldsView {
            field_getters: Seq::empty(),
            field_setters: Seq::empty(),
            meta_fields: Seq::empty(),
        }
    }

    /// With a further getter.
    pub open spec fn with_getter(self, name: Seq<u8>, kind: CallKind, id: u64) -> FieldsView {
        FieldsView { field_getters: self.field_getters.push((name, Callback { kind, id })), ..self }
    }

    /// With a further setter.
    pub open spec fn with_setter(self, name: Seq<u8>, kind: CallKind, id: u64) -> FieldsView {
        FieldsView { field_setters: self.field_setters.push((name, Callback { kind, id })), ..self }
    }
}

fn push_named(list: &mut Vec<(Vec<u8>, Callback)>, name: &[u8], kind: CallKind, id: u64)
    ensures
        named(final(list)@) == named(old(list)@).push((name@, Callback { kind, id })),
{
    let ghost before = list@;
    list.push((slice_to_vec(name), Callback { kind, id }));
    assert(named(list@) =~= named(before).push((name@, Callback { kind, id })));
}

impl Default for StaticUserDataMethods {
    fn default() -> (methods: StaticUserDataMethods)
        ensures
            methods@ == MethodsView::none(),
            methods@.methods.len() == 0,
            methods@.async_methods.len() == 0,
            methods@.meta_methods.len() == 0,
    {
        let methods = StaticUserDataMethods {
            methods: Vec::new(),
            async_methods: Vec::new(),
            meta_methods: Vec::new(),
        };
        assert(methods@ =~= MethodsView::none());
        methods
    }
}

impl Default for StaticUserDataFields {
    fn default() -> (fields: StaticUserDataFields)
        ensures
            fields@ == FieldsView::none(),
            fields@.field_getters.len() == 0,
            fields@.field_setters.len() == 0,
            fields@.meta_fields.len() == 0,
    {
        let fields = StaticUserDataFields {
            field_getters: Vec::new(),
            field_setters: Vec::new(),
            meta_fields: Vec::new(),
        };
        assert(fields@ =~= FieldsView::none());
        fields
    }
}

impl StaticUserDataMethods {
    /// Adds a method that borrows its userdata.
    pub fn add_method(&mut self, name: &[u8], id: u64)
        ensures
            final(self)@ == old(self)@.with_method(name@, CallKind::Method, id),
            final(self)@ == (MethodsView {
                methods: old(self)@.methods.push(
                    (name@, Callback { kind: CallKind::Method, id }),
                ),
                ..old(self)@
            }),
    {
        push_named(&mut self.methods, name, CallKind::Method, id);
    }

    /// Adds a method that borrows its userdata mutably.
    pub fn add_method_mut(&mut self, name: &[u8], id: u64)
        ensures
            final(self)@ == old(self)@.with_method(name@, CallKind::MethodMut, id),
            final(self)@ == (MethodsView {
                methods: old(self)@.methods.push(
                    (name@, Callback { kind: CallKind::MethodMut, id }),
                ),
                ..old(self)@
            }),
    {
        push_named(&mut self.methods, name, CallKind::MethodMut, id);
    }

    /// Adds an asynchronous method.
    pub fn add_async_method(&mut self, name: &[u8], id: u64)
        ensures
            final(self)@ == old(self)@.with_async(name@, CallKind::AsyncMethod, id),
            final(self)@ == (MethodsView {
                async_methods: old(self)@.async_methods.push(
                    (name@, Callback { kind: CallKind::AsyncMethod, id }),
                ),
                ..old(self)@
            }),
    {
        push_named(&mut self.async_methods, name, CallKind::AsyncMethod, id);
    }

    /// Adds a function.
    pub fn add_function(&mut self, name: &[u8], id: u64)
        ensures
            final(self)@ == old(self)@.with_method(name@, CallKind::Function, id),
            final(self)@ == (MethodsView {
                methods: old(self)@.methods.push(
                    (name@, Callback { kind: CallKind::Function, id }),
                ),
                ..old(self)@
            }),
    {
        push_named(&mut self.methods, name, CallKind::Function, id);
    }

    /// Adds a function made from a mutable closure.
    pub fn add_function_mut(&mut self, name: &[u8], id: u64)
        ensures
            final(self)@ == old(self)@.with_method(name@, CallKind::FunctionMut, id),
            final(self)@ == (MethodsView {
                methods: old(self)@.methods.push(
                    (name@, Callback { kind: CallKind::FunctionMut, id }),
                ),
                ..old(self)@
            }),
    {
        push_named(&mut self.methods, name, CallKind::FunctionMut, id);
    }

    /// Adds an asynchronous function.
    pub fn add_async_function(&mut self, name: &[u8], id: u64)
        ensures
            final(self)@ == old(self)@.with_async(name@, CallKind::AsyncFunction, id),
            final(self)@ == (MethodsView {
                async_methods: old(self)@.async_methods.push(
                    (name@, Callback { kind: CallKind::AsyncFunction, id }),
                ),
                ..old(self)@
            }),
    {
        push_named(&mut self.async_methods, name, CallKind::AsyncFunction, id);
    }

    fn push_meta(&mut self, meta: MetaMethod, kind: CallKind, id: u64)
        ensures
            final(self)@ == old(self)@.with_meta(meta@, kind, id),
    {
        let ghost before = self.meta_methods@;
        self.meta_methods.push((meta, Callback { kind, id }));
        assert(meta_named(self.meta_methods@) =~= meta_named(before).push(
            (meta@, Callback { kind, id }),
        ));
    }

    /// Adds a metatable method that borrows its userdata.
    pub fn add_meta_method(&mut self, meta: MetaMethod, id: u64)
        ensures
            final(self)@ == old(self)@.with_meta(meta@, CallKind::Method, id),
            final(self)@ == (MethodsView {
                meta_methods: old(self)@.meta_methods.push(
                    (meta@, Callback { kind: CallKind::Method, id }),
                ),
                ..old(self)@
            }),
    {
        self.push_meta(meta, CallKind::Method, id);
    }

    /// Adds a metatable method that borrows its userdata mutably.
    pub fn add_meta_method_mut(&mut self, meta: MetaMethod, id: u64)
        ensures
            final(self)@ == old(self)@.with_meta(meta@, CallKind::MethodMut, id),
            final(self)@ == (MethodsView {
                meta_methods: old(self)@.meta_methods.push(
                    (meta@, Callback { kind: CallKind::MethodMut, id }),
                ),
                ..old(self)@
            }),
    {
        self.push_meta(meta, CallKind::MethodMut, id);
    }

    /// Adds a metatable function.
    pub fn add_meta_function(&mut self, meta: MetaMethod, id: u64)
        ensures
            final(self)@ == old(self)@.with_meta(meta@, CallKind::Function, id),
            final(self)@ == (MethodsView {
                meta_methods: old(self)@.meta_methods.push(
                    (meta@, Callback { kind: CallKind::Function, id }),
                ),
                ..old(self)@
            }),
    {
        self.push_meta(meta, CallKind::Function, id);
    }

    /// Adds a metatable function made from a mutable closure.
    pub fn add_meta_function_mut(&mut self, meta: MetaMethod, id: u64)
        ensures
            final(self)@ == old(self)@.with_meta(meta@, CallKind::FunctionMut, id),
            final(self)@ == (MethodsView {
                meta_methods: old(self)@.meta_methods.push(
                    (meta@, Callback { kind: CallKind::FunctionMut, id }),
                ),
                ..old(self)@
            }),
    {
        self.push_meta(meta, CallKind::FunctionMut, id);
    }
}

impl StaticUserDataFields {
    /// Adds a getter that borrows the userdata.
    pub fn add_field_method_get(&mut self, name: &[u8], id: u64)
        ensures
            final(self)@ == old(self)@.with_getter(name@, CallKind::Method, id),
            final(self)@ == (FieldsView {
                field_getters: old(self)@.field_getters.push(
                    (name@, Callback { kind: CallKind::Method, id }),
                ),
                ..old(self)@
            }),
    {
        push_named(&mut self.field_getters, name, CallKind::Method, id);
    }

    /// Adds a setter that borrows the userdata mutably.
    pub fn add_field_method_set(&mut self, name: &[u8], id: u64)
        ensures
            final(self)@ == old(self)@.with_setter(name@, CallKind::MethodMut, id),
            final(self)@ == (FieldsView {
                field_setters: old(self)@.field_setters.push(
                    (name@, Callback { kind: CallKind::MethodMut, id }),
                ),
                ..old(self)@
            }),
    {
        push_named(&mut self.field_setters, name, CallKind::MethodMut, id);
    }

    /// Adds a getter that takes the userdata as an argument.
    pub fn add_field_function_get(&mut self, name: &[u8], id: u64)
        ensures
            final(self)@ == old(self)@.with_getter(name@, CallKind::Function, id),
            final(self)@ == (FieldsView {
                field_getters: old(self)@.field_getters.push(
                    (name@, Callback { kind: CallKind::Function, id }),
                ),
                ..old(self)@
            }),
    {
        push_named(&mut self.field_getters, name, CallKind::Function, id);
    }

    /// Adds a setter, made from a mutable closure, that takes the userdata as an argument.
    pub fn add_field_function_set(&mut self, name: &[u8], id: u64)
        ensures
            final(self)@ == old(self)@.with_setter(name@, CallKind::FunctionMut, id),
            final(self)@ == (FieldsView {
                field_setters: old(self)@.field_setters.push(
                    (name@, Callback { kind: CallKind::FunctionMut, id }),
                ),
                ..old(self)@
            }),
    {
        push_named(&mut self.field_setters, name, CallKind::FunctionMut, id);
    }

    /// Adds a metatable field; its value is computed when the metatable is made, see
    /// `meta_field_value`.
    pub fn add_meta_field_with(&mut self, meta: MetaMethod, id: u64)
        ensures
            final(self)@ == (FieldsView {
                meta_fields: old(self)@.meta_fields.push((meta@, id)),
                ..old(self)@
            }),
    {
        let ghost before = self.meta_fields@;
        self.meta_fields.push((meta, id));
        assert(meta_named(self.meta_fields@) =~= meta_named(before).push((meta@, id)));
    }
}

/// Why a value cannot be a metatable field: Lua looks for keys in what `__index` and `__newindex`
/// hold, so that has to be nil, a table or a function.
pub open spec fn meta_field_refusal(kind: MetaKind, value: Value) -> Option<ErrorView> {
    if kind == MetaKind::Other || value is Nil || value is Table || value is Function {
        None
    } else {
        Some(
            ErrorOf::MetaMethodTypeError {
                method: if kind == MetaKind::Index {
                    "__index"@
                } else {
                    "__newindex"@
                },
                kind_name: value.kind_text(),
                message: Some("expected nil, table or function"@),
            },
        )
    }
}

/// Accepts or refuses the value that was computed for a metatable field.
pub fn meta_field_value(kind: MetaKind, value: Value) -> (r: Result<Value, Error>)
    ensures
        match meta_field_refusal(kind, value) {
            Some(e) => refused(r, e),
            None => r == Ok::<Value, Error>(value),
        },
{
    let method = match kind {
        MetaKind::Index => "__index",
        MetaKind::NewIndex => "__newindex",
        MetaKind::Other => {
            return Ok(value);
        },
    };
    match value {
        Value::Nil | Value::Table(_) | Value::Function(_) => Ok(value),
        _ => Err(
            ErrorOf::MetaMethodTypeError {
                method: method.to_owned(),
                kind_name: value.kind_name().to_owned(),
                message: Some("expected nil, table or function".to_owned()),
            },
        ),
    }
}

/// Only `__index` and `__newindex` are particular about their values: they take nil, tables and
/// functions, and refuse everything else with an error that names the field and the kind of the
/// value.
pub proof fn law_meta_field_values(value: Value)
    ensures
        meta_field_refusal(MetaKind::Other, value) is None,
        value is Nil || value is Table || value is Function ==> meta_field_refusal(
            MetaKind::Index,
            value,
        ) is None && meta_field_refusal(MetaKind::NewIndex, value) is None,
        !(value is Nil || value is Table || value is Function) ==> {
            &&& meta_field_refusal(MetaKind::Index, value) == Some(
                ErrorView::MetaMethodTypeError {
                    method: "__index"@,
                    kind_name: value.kind_text(),
                    message: Some("expected nil, table or function"@),
                },
            )
            &&& meta_field_refusal(MetaKind::NewIndex, value) == Some(
                ErrorView::MetaMethodTypeError {
                    method: "__newindex"@,
                    kind_name: value.kind_text(),
                    message: Some("expected nil, table or function"@),
                },
            )
        },
{
}

} // verus!
