//! Types of the typed language and their text.
use vstd::prelude::*;

verus! {

/// A type of the typed language.
#[derive(Debug, PartialEq, Eq, Hash)]
pub enum Type {
    /// Integer type (64-bit signed).
    Int,
    /// Boolean type.
    Bool,
    /// Function type: the parameters' types and the result's type.
    Function { params: Vec<Type>, ret: Box<Type> },
    /// Unit type, of statements with no value.
    Unit,
    /// A type not inferred yet.
    Unknown,
}

/// The mathematical value of a type.
pub enum SType {
    Int,
    Bool,
    Function(Seq<SType>, Box<SType>),
    Unit,
    Unknown,
}

pub open spec fn type_view(t: Type) -> SType
    decreases t,
{
    match t {
        Type::Int => SType::Int,
        Type::Bool => SType::Bool,
        Type::Function { params, ret } => SType::Function(types_view(params@), Box::new(type_view(*ret))),
        Type::Unit => SType::Unit,
        Type::Unknown => SType::Unknown,
    }
}

pub open spec fn types_view(s: Seq<Type>) -> Seq<SType>
    decreases s,
{
    if s.len() == 0 {
        Seq::empty()
    } else {
        types_view(s.drop_last()).push(type_view(s.last()))
    }
}

impl View for Type {
    type V = SType;

    open spec fn view(&self) -> SType {
        type_view(*self)
    }
}

/// The view of a list of types has one entry per type, each that type's view.
pub proof fn lemma_types_view(s: Seq<Type>)
    ensures
        types_view(s).len() == s.len(),
        forall|i: int| 0 <= i < s.len() ==> #[trigger] types_view(s)[i] == type_view(s[i]),
    decreases s.len(),
{
    if s.len() > 0 {
        lemma_types_view(s.drop_last());
    }
}

/// The text of a type: `int`, `bool`, `()`, `?`, or `(p1, p2) -> r` for a function.
pub open spec fn type_text(t: SType) -> Seq<char>
    decreases t,
{
    match t {
        SType::Int => "int"@,
        SType::Bool => "bool"@,
        SType::Unit => "()"@,
        SType::Unknown => "?"@,
        SType::Function(ps, r) => "("@ + type_items(ps) + ") -> "@ + type_text(*r),
    }
}

/// The texts of types, separated by `", "`.
pub open spec fn type_items(s: Seq<SType>) -> Seq<char>
    decreases s,
{
    if s.len() == 0 {
        Seq::empty()
    } else if s.len() == 1 {
        type_text(s[0])
    } else {
        type_items(s.drop_last()) + ", "@ + type_text(s.last())
    }
}

/// Appends the texts of types, separated by `", "`.
pub fn write_types(out: &mut String, v: &Vec<Type>)
    ensures
        final(out)@ == old(out)@ + type_items(types_view(v@)),
    decreases v, 0nat,
{
    let ghost start = out@;
    let ghost items = types_view(v@);
    proof {
        lemma_types_view(v@);
    }
    let n = v.len();
    for i in 0..n
        invariant
            n == v@.len(),
            items == types_view(v@),
            items.len() == n,
            forall|j: int| 0 <= j < n ==> #[trigger] items[j] == type_view(v@[j]),
            out@ == start + type_items(items.take(i as int)),
    {
        if i > 0 {
            out.append(", ");
        }
        assert(decreases_to!(v => v@[i as int]));
        write_type(out, &v[i]);
        assert(items.take(i + 1).drop_last() =~= items.take(i as int));
        assert(items.take(i + 1).last() == type_view(v@[i as int]));
        assert(out@ =~= start + type_items(items.take(i + 1)));
    }
    assert(items.take(n as int) =~= items);
}

/// Appends the text of a type.
pub fn write_type(out: &mut String, t: &Type)
    ensures
        final(out)@ == old(out)@ + type_text(t@),
    decreases t, 1nat,
{
    let ghost start = out@;
    match t {
        Type::Int => out.append("int"),
        Type::Bool => out.append("bool"),
        Type::Unit => out.append("()"),
        Type::Unknown => out.append("?"),
        Type::Function { params, ret } => {
            out.append("(");
            write_types(out, params);
            out.append(") -> ");
            write_type(out, ret);
            assert(out@ =~= start + type_text(t@));
        },
    }
}

/// A copy of a list of types.
pub fn copy_types(v: &Vec<Type>) -> (r: Vec<Type>)
    ensures
        types_view(r@) == types_view(v@),
    decreases v,
{
    let mut r: Vec<Type> = Vec::new();
    let n = v.len();
    for i in 0..n
        invariant
            n == v@.len(),
            r@.len() == i,
            forall|j: int| 0 <= j < i ==> #[trigger] type_view(r@[j]) == type_view(v@[j]),
    {
        assert(decreases_to!(v => v@[i as int]));
        r.push(v[i].deep_copy());
    }
    proof {
        lemma_types_view(r@);
        lemma_types_view(v@);
        assert(types_view(r@) =~= types_view(v@));
    }
    r
}

impl Type {
    /// The text of this type, as `Display` shows it.
    pub fn render(&self) -> (r: String)
        ensures
            r@ == type_text(self@),
    {
        let mut out = String::new();
        write_type(&mut out, self);
        out
    }

    /// A copy of this type, equal to it in every part.
    pub fn deep_copy(&self) -> (r: Type)
        ensures
            r@ == self@,
        decreases self,
    {
        match self {
            Type::Int => Type::Int,
            Type::Bool => Type::Bool,
            Type::Unit => Type::Unit,
            Type::Unknown => Type::Unknown,
            Type::Function { params, ret } => Type::Function { params: copy_types(params), ret: Box::new(ret.deep_copy()) },
        }
    }
}

impl Clone for Type {
    fn clone(&self) -> (r: Type)
        ensures
            r@ == self@,
    {
        self.deep_copy()
    }
}

} // verus!
