//! The types of Jo, shared by the syntax tree and the type checker.

use vstd::prelude::*;

use crate::text;

verus! {

#[derive(Debug, PartialEq, Eq)]
pub enum Type {
    /// 64-bit signed integer machine type.
    I64,
    /// 64-bit IEEE-754 floating point machine type.
    F64,
    /// No value (function return only).
    Void,
    /// Not known, because the value has been reported as wrong. The checker alone
    /// uses it: no program that is parsed or accepted holds it.
    Unknown,
    /// The null / absent-pointer type (zero-sized).
    Null,
    /// A named struct type in scope, e.g. `int`, `Person`.
    Named(String),
    /// A `module::name` qualified type.
    Qualified(String, String),
    /// `&T`
    Ref(Box<Type>),
    /// `&mut T`
    MutRef(Box<Type>),
}

/// The mathematical model of a [`Type`]: names are character sequences.
pub enum TypeM {
    I64,
    F64,
    Void,
    Unknown,
    Null,
    Named(Seq<char>),
    Qualified(Seq<char>, Seq<char>),
    Ref(Box<TypeM>),
    MutRef(Box<TypeM>),
}

pub open spec fn type_view(t: Type) -> TypeM
    decreases t,
{
    match t {
        Type::I64 => TypeM::I64,
        Type::F64 => TypeM::F64,
        Type::Void => TypeM::Void,
        Type::Unknown => TypeM::Unknown,
        Type::Null => TypeM::Null,
        Type::Named(n) => TypeM::Named(n@),
        Type::Qualified(m, n) => TypeM::Qualified(m@, n@),
        Type::Ref(inner) => TypeM::Ref(Box::new(type_view(*inner))),
        Type::MutRef(inner) => TypeM::MutRef(Box::new(type_view(*inner))),
    }
}

impl View for Type {
    type V = TypeM;

    open spec fn view(&self) -> TypeM {
        type_view(*self)
    }
}

pub open spec fn opt_type_view(t: Option<Type>) -> Option<TypeM> {
    match t {
        Some(t) => Some(t@),
        None => None,
    }
}

impl TypeM {
    /// `i64`, `f64` and `null` are the machine types.
    pub open spec fn is_machine(self) -> bool {
        self is I64 || self is F64 || self is Null
    }

    pub open spec fn is_ref(self) -> bool {
        self is Ref || self is MutRef
    }

    /// What a reference refers to.
    pub open spec fn referent(self) -> Option<TypeM> {
        match self {
            TypeM::Ref(inner) => Some(*inner),
            TypeM::MutRef(inner) => Some(*inner),
            _ => None,
        }
    }

    /// The type with which an expression is annotated; one that is not known
    /// counts as `void`.
    pub open spec fn settled(self) -> TypeM {
        if self is Unknown {
            TypeM::Void
        } else {
            self
        }
    }

    /// The type as it is written in Jo source.
    pub open spec fn shown(self) -> Seq<char>
        decreases self,
    {
        match self {
            TypeM::I64 => "i64"@,
            TypeM::F64 => "f64"@,
            TypeM::Void => "void"@,
            TypeM::Unknown => "void"@,
            TypeM::Null => "null"@,
            TypeM::Named(n) => n,
            TypeM::Qualified(m, n) => m + "::"@ + n,
            TypeM::Ref(inner) => "&"@ + inner.shown(),
            TypeM::MutRef(inner) => "&mut "@ + inner.shown(),
        }
    }
}

impl Type {
    /// True if this is a machine (primitive) type: `i64`, `f64`, or `null`.
    pub fn is_machine(&self) -> (r: bool)
        ensures
            r == self@.is_machine(),
    {
        matches!(self, Type::I64 | Type::F64 | Type::Null)
    }

    /// If this is a reference (`&T` or `&mut T`), return the referent type.
    pub fn deref_target(&self) -> (r: Option<&Type>)
        ensures
            match r {
                Some(t) => self@.referent() == Some(t@),
                None => self@.referent() is None,
            },
    {
        match self {
            Type::Ref(inner) | Type::MutRef(inner) => Some(&**inner),
            _ => None,
        }
    }

    /// True if this is `&T` or `&mut T`.
    pub fn is_ref(&self) -> (r: bool)
        ensures
            r == self@.is_ref(),
    {
        matches!(self, Type::Ref(_) | Type::MutRef(_))
    }

    /// A user-facing rendering used in error messages.
    pub fn display(&self) -> (r: String)
        ensures
            r@ == self@.shown(),
        decreases self,
    {
        match self {
            Type::I64 => "i64".to_owned(),
            Type::F64 => "f64".to_owned(),
            Type::Void => "void".to_owned(),
            Type::Unknown => "void".to_owned(),
            Type::Null => "null".to_owned(),
            Type::Named(n) => n.clone(),
            Type::Qualified(m, n) => text::cat3(m.as_str(), "::", n.as_str()),
            Type::Ref(inner) => text::cat2("&", inner.display().as_str()),
            Type::MutRef(inner) => text::cat2("&mut ", inner.display().as_str()),
        }
    }

    /// The type with which an expression is annotated.
    pub fn settled(&self) -> (r: Type)
        ensures
            r@ == self@.settled(),
    {
        match self {
            Type::Unknown => Type::Void,
            _ => self.copy(),
        }
    }

    /// An equal type.
    pub fn copy(&self) -> (r: Type)
        ensures
            r@ == self@,
        decreases self,
    {
        match self {
            Type::I64 => Type::I64,
            Type::F64 => Type::F64,
            Type::Void => Type::Void,
            Type::Unknown => Type::Unknown,
            Type::Null => Type::Null,
            Type::Named(n) => Type::Named(n.clone()),
            Type::Qualified(m, n) => Type::Qualified(m.clone(), n.clone()),
            Type::Ref(inner) => Type::Ref(Box::new(inner.copy())),
            Type::MutRef(inner) => Type::MutRef(Box::new(inner.copy())),
        }
    }

    /// Whether both are the same type.
    pub fn same(&self, other: &Type) -> (r: bool)
        ensures
            r == (self@ == other@),
        decreases self,
    {
        match (self, other) {
            (Type::I64, Type::I64) => true,
            (Type::F64, Type::F64) => true,
            (Type::Void, Type::Void) => true,
            (Type::Unknown, Type::Unknown) => true,
            (Type::Null, Type::Null) => true,
            (Type::Named(a), Type::Named(b)) => *a == *b,
            (Type::Qualified(a, b), Type::Qualified(c, d)) => *a == *c && *b == *d,
            (Type::Ref(a), Type::Ref(b)) => a.same(b),
            (Type::MutRef(a), Type::MutRef(b)) => a.same(b),
            _ => false,
        }
    }
}

impl Clone for Type {
    fn clone(&self) -> (r: Type)
        ensures
            r@ == self@,
    {
        self.copy()
    }
}

/// Whether each character can stand in an identifier.
pub open spec fn name_text(s: Seq<char>) -> bool {
    forall|i: int| 0 <= i < s.len() ==> text::ident_char(#[trigger] s[i])
}

impl TypeM {
    /// It is known, the names in it are words, and no plain name is that of a
    /// built-in type.
    pub open spec fn well_named(self) -> bool
        decreases self,
    {
        match self {
            TypeM::Named(n) => {
                &&& name_text(n)
                &&& n != "i64"@ && n != "f64"@ && n != "void"@ && n != "null"@
            },
            TypeM::Qualified(m, n) => name_text(m) && name_text(n),
            TypeM::Ref(inner) => inner.well_named(),
            TypeM::MutRef(inner) => inner.well_named(),
            TypeM::Unknown => false,
            _ => true,
        }
    }
}

proof fn shown_chars(t: TypeM)
    requires
        t.well_named(),
        !t.is_ref(),
    ensures
        forall|i: int|
            0 <= i < t.shown().len() ==> text::ident_char(#[trigger] t.shown()[i]) || t.shown()[i]
                == ':',
        !(t is Qualified) ==> name_text(t.shown()),
{
    reveal_strlit("i64");
    reveal_strlit("f64");
    reveal_strlit("void");
    reveal_strlit("null");
    reveal_strlit("::");
}

/// Different types are displayed differently.
pub proof fn types_are_displayed_differently(a: TypeM, b: TypeM)
    requires
        a.well_named(),
        b.well_named(),
        a != b,
    ensures
        a.shown() != b.shown(),
    decreases a,
{
    reveal_strlit("&");
    reveal_strlit("&mut ");
    reveal_strlit("::");
    reveal_strlit("i64");
    reveal_strlit("f64");
    reveal_strlit("void");
    reveal_strlit("null");
    if !a.is_ref() {
        shown_chars(a);
    }
    if !b.is_ref() {
        shown_chars(b);
    }
    let x = a.shown();
    let y = b.shown();
    if x == y {
        if a.is_ref() || b.is_ref() {
            // A reference starts with `&`, and no other type does.
            if a.is_ref() {
                assert(x[0] == '&');
            } else {
                assert(y[0] == '&');
            }
            assert(a.is_ref() && b.is_ref());
            let p = a.referent()->0;
            let q = b.referent()->0;
            if a is Ref && b is Ref {
                assert(x.skip(1) =~= p.shown());
                assert(y.skip(1) =~= q.shown());
                types_are_displayed_differently(p, q);
            } else if a is MutRef && b is MutRef {
                assert(x.skip(5) =~= p.shown());
                assert(y.skip(5) =~= q.shown());
                types_are_displayed_differently(p, q);
            } else if a is Ref {
                amp_mut_is_no_referent(p, q);
            } else {
                amp_mut_is_no_referent(q, p);
            }
        } else {
            match (a, b) {
                (TypeM::Qualified(m, n), TypeM::Qualified(k, l)) => {
                    if m.len() < k.len() {
                        assert(y[m.len() as int] == k[m.len() as int]);
                        assert(x[m.len() as int] == ':');
                    } else if k.len() < m.len() {
                        assert(x[k.len() as int] == m[k.len() as int]);
                        assert(y[k.len() as int] == ':');
                    } else {
                        assert(m =~= x.take(m.len() as int));
                        assert(k =~= y.take(m.len() as int));
                        assert(n =~= x.skip((m.len() + 2) as int));
                        assert(l =~= y.skip((m.len() + 2) as int));
                    }
                },
                (TypeM::Qualified(m, _), _) => {
                    assert(x[m.len() as int] == ':');
                },
                (_, TypeM::Qualified(m, _)) => {
                    assert(y[m.len() as int] == ':');
                },
                (TypeM::Named(_), _) => {},
                (_, TypeM::Named(_)) => {},
                _ => {
                    assert(x[0] != y[0]);
                },
            }
        }
    }
}

/// What follows the `&` of a shared reference does not start with `mut `.
proof fn amp_mut_is_no_referent(p: TypeM, q: TypeM)
    requires
        p.well_named(),
    ensures
        "&"@ + p.shown() != "&mut "@ + q.shown(),
{
    reveal_strlit("&");
    reveal_strlit("&mut ");
    let x = "&"@ + p.shown();
    let y = "&mut "@ + q.shown();
    if x == y {
        assert(y.len() >= 5 && p.shown().len() >= 4);
        assert(y[1] == 'm' && y[4] == ' ');
        assert(x[1] == p.shown()[0]);
        assert(x[4] == p.shown()[3]);
        if !p.is_ref() {
            shown_chars(p);
        }
    }
}

} // verus!
