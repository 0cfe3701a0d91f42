use vstd::prelude::*;

verus! {

/// A handle to a value that is kept in a slot of the reference thread.
///
/// `extra` identifies the main state that the slot belongs to, `index` is the slot.
#[derive(Clone, Copy, Debug, PartialEq, Eq, Structural)]
pub struct LuaRef {
    pub extra: u64,
    pub index: i32,
}

/// Kinds of values that live behind a handle.
#[derive(Clone, Copy, Debug, PartialEq, Eq, Structural)]
pub enum RefKind {
    String,
    Table,
    Function,
    Thread,
    UserData,
}

/// A Lua value as the embedding holds it.
///
/// A number is held by its IEEE 754 bit pattern, an error by the number under which the embedder
/// keeps it, a light userdata by its address.
#[derive(Clone, Copy, Debug, PartialEq, Eq, Structural)]
pub enum Value {
    Nil,
    Boolean(bool),
    LightUserData(u64),
    Integer(i64),
    Number(u64),
    String(LuaRef),
    Table(LuaRef),
    Function(LuaRef),
    Thread(LuaRef),
    UserData(LuaRef),
    Error(u64),
}

impl Value {
    /// The handle inside a value that has one.
    pub open spec fn handle(self) -> Option<LuaRef> {
        match self {
            Value::String(r) => Some(r),
            Value::Table(r) => Some(r),
            Value::Function(r) => Some(r),
            Value::Thread(r) => Some(r),
            Value::UserData(r) => Some(r),
            _ => None,
        }
    }

    /// A value without a handle, or one whose handle belongs to the main state `extra`.
    pub open spec fn owned_by(self, extra: u64) -> bool {
        self.handle() matches Some(r) ==> r.extra == extra
    }

    /// The value of the given kind behind `lref`.
    pub open spec fn of_kind(kind: RefKind, lref: LuaRef) -> Value {
        match kind {
            RefKind::String => Value::String(lref),
            RefKind::Table => Value::Table(lref),
            RefKind::Function => Value::Function(lref),
            RefKind::Thread => Value::Thread(lref),
            RefKind::UserData => Value::UserData(lref),
        }
    }

    /// Wraps a handle as a value of the given kind.
    pub fn from_ref(kind: RefKind, lref: LuaRef) -> (v: Value)
        ensures
            v == Value::of_kind(kind, lref),
            v == match kind {
                RefKind::String => Value::String(lref),
                RefKind::Table => Value::Table(lref),
                RefKind::Function => Value::Function(lref),
                RefKind::Thread => Value::Thread(lref),
                RefKind::UserData => Value::UserData(lref),
            },
    {
        match kind {
            RefKind::String => Value::String(lref),
            RefKind::Table => Value::Table(lref),
            RefKind::Function => Value::Function(lref),
            RefKind::Thread => Value::Thread(lref),
            RefKind::UserData => Value::UserData(lref),
        }
    }

    /// The name of the value's type.
    pub open spec fn kind_text(self) -> Seq<char> {
        match self {
            Value::Nil => "nil"@,
            Value::Boolean(_) => "boolean"@,
            Value::LightUserData(_) => "light userdata"@,
            Value::Integer(_) => "integer"@,
            Value::Number(_) => "number"@,
            Value::String(_) => "string"@,
            Value::Table(_) => "table"@,
            Value::Function(_) => "function"@,
            Value::Thread(_) => "thread"@,
            Value::UserData(_) => "userdata"@,
            Value::Error(_) => "error"@,
        }
    }

    /// Returns the name of the value's type.
    pub fn kind_name(&self) -> (name: &'static str)
        ensures
            name@ == self.kind_text(),
    {
        match *self {
            Value::Nil => "nil",
            Value::Boolean(_) => "boolean",
            Value::LightUserData(_) => "light userdata",
            Value::Integer(_) => "integer",
            Value::Number(_) => "number",
            Value::String(_) => "string",
            Value::Table(_) => "table",
            Value::Function(_) => "function",
            Value::Thread(_) => "thread",
            Value::UserData(_) => "userdata",
            Value::Error(_) => "error",
        }
    }
}

/// A list of values, such as the arguments or the results of a function.
///
/// The first value is stored last, so that values are taken from and put at the front cheaply.
#[derive(Debug, PartialEq, Eq)]
pub struct MultiValue {
    reversed: Vec<Value>,
}

impl View for MultiValue {
    type V = Seq<Value>;

    closed spec fn view(&self) -> Seq<Value> {
        self.reversed@.reverse()
    }
}

impl MultiValue {
    /// Creates an empty list.
    pub fn new() -> (values: MultiValue)
        ensures
            values@ == Seq::<Value>::empty(),
    {
        let values = MultiValue { reversed: Vec::new() };
        assert(values@ =~= Seq::<Value>::empty());
        values
    }

    /// Number of values in the list.
    pub fn len(&self) -> (n: usize)
        ensures
            n == self@.len(),
    {
        self.reversed.len()
    }

    /// Puts a value in front of all others.
    pub fn push_front(&mut self, value: Value)
        ensures
            final(self)@ == seq![value] + old(self)@,
    {
        self.reversed.push(value);
        assert(self@ =~= seq![value] + old(self)@);
    }

    /// Takes the first value off the list.
    pub fn pop_front(&mut self) -> (front: Option<Value>)
        ensures
            front == if old(self)@.len() == 0 { None } else { Some(old(self)@[0]) },
            final(self)@ == if old(self)@.len() == 0 {
                old(self)@
            } else {
                old(self)@.skip(1)
            },
    {
        let front = self.reversed.pop();
        proof {
            if old(self)@.len() == 0 {
                assert(self@ =~= old(self)@);
            } else {
                assert(self@ =~= old(self)@.skip(1));
            }
        }
        front
    }

    /// The value at position `i`, counted from the front.
    pub fn get(&self, i: usize) -> (value: Value)
        requires
            i < self@.len(),
        ensures
            value == self@[i as int],
    {
        self.reversed[self.reversed.len() - 1 - i]
    }

    /// The values in order.
    pub fn to_vec(&self) -> (values: Vec<Value>)
        ensures
            values@ == self@,
    {
        let mut values: Vec<Value> = Vec::new();
        let mut i: usize = 0;
        while i < self.len()
            invariant
                i <= self@.len(),
                values@ == self@.take(i as int),
            decreases self@.len() - i,
        {
            values.push(self.get(i));
            assert(values@ =~= self@.take(i + 1));
            i = i + 1;
        }
        assert(self@.take(self@.len() as int) =~= self@);
        values
    }

    /// Makes a list out of values in order.
    pub fn from_vec(values: Vec<Value>) -> (list: MultiValue)
        ensures
            list@ == values@,
    {
        let mut reversed: Vec<Value> = Vec::new();
        let mut left: usize = values.len();
        while left > 0
            invariant
                left <= values@.len(),
                reversed@ == values@.skip(left as int).reverse(),
            decreases left,
        {
            left = left - 1;
            reversed.push(values[left]);
            assert(reversed@ =~= values@.skip(left as int).reverse());
        }
        let list = MultiValue { reversed };
        assert(list@ =~= values@);
        list
    }
}

/// A value of a kind that is kept behind handles has the handle that it was made of, and no other value
/// has a handle.
pub proof fn law_handles(kind: RefKind, lref: LuaRef, value: Value)
    ensures
        Value::of_kind(kind, lref).handle() == Some(lref),
        Value::String(lref).handle() == Some(lref),
        Value::Table(lref).handle() == Some(lref),
        Value::Function(lref).handle() == Some(lref),
        Value::Thread(lref).handle() == Some(lref),
        Value::UserData(lref).handle() == Some(lref),
        value is Nil || value is Boolean || value is LightUserData || value is Integer
            || value is Number || value is Error ==> value.handle() is None,
{
}

/// The names of the kinds of values, as errors give them.
pub proof fn law_kind_names(b: bool, p: u64, i: i64, lref: LuaRef)
    ensures
        Value::Nil.kind_text() == "nil"@,
        Value::Boolean(b).kind_text() == "boolean"@,
        Value::LightUserData(p).kind_text() == "light userdata"@,
        Value::Integer(i).kind_text() == "integer"@,
        Value::Number(p).kind_text() == "number"@,
        Value::String(lref).kind_text() == "string"@,
        Value::Table(lref).kind_text() == "table"@,
        Value::Function(lref).kind_text() == "function"@,
        Value::Thread(lref).kind_text() == "thread"@,
        Value::UserData(lref).kind_text() == "userdata"@,
        Value::Error(p).kind_text() == "error"@,
{
}

} // verus!
