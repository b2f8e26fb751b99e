//! GraphQL schema coordinates: https://spec.graphql.org/September2025/#sec-Schema-Coordinates
use vstd::prelude::*;

use crate::span::Span;
use crate::text::append;

verus! {

/// A name within a coordinate, with where it stood in the parsed text.
/// Two names are equal when their texts are.
#[derive(Clone, Debug)]
pub struct Name {
    pub span: Span,
    pub value: String,
}

impl Name {
    pub fn new(value: String) -> (name: Self)
        ensures
            name.value@ == value@,
            name.span == Span::default_span(),
    {
        Name { span: Span::new(0, 0), value }
    }
}

impl PartialEq for Name {
    fn eq(&self, other: &Self) -> (r: bool) {
        self.value == other.value
    }
}

impl vstd::std_specs::cmp::PartialEqSpecImpl for Name {
    open spec fn obeys_eq_spec() -> bool {
        true
    }

    open spec fn eq_spec(&self, other: &Self) -> bool {
        self.value@ == other.value@
    }
}

impl Eq for Name {}

#[derive(Clone, Debug, PartialEq, Eq)]
pub struct TypeCoordinate {
    pub name: Name,
}

impl TypeCoordinate {
    pub fn new(name: &str) -> (coordinate: Self)
        ensures
            coordinate.name.value@ == name@,
            coordinate.name.span == Span::default_span(),
    {
        TypeCoordinate { name: Name::new(name.to_owned()) }
    }

    pub fn span(&self) -> (span: Span)
        ensures
            span == self.name.span,
    {
        self.name.span
    }

    pub fn name(&self) -> (name: &str)
        ensures
            name@ == self.name.value@,
    {
        self.name.value.as_str()
    }

    /// The coordinate as text: `Type`.
    pub fn to_string(&self) -> (text: String)
        ensures
            text@ == self.name.value@,
    {
        self.name.value.clone()
    }
}

#[derive(Clone, Debug, PartialEq, Eq)]
pub struct MemberCoordinate {
    pub ty: TypeCoordinate,
    pub name: Name,
}

impl MemberCoordinate {
    pub fn new(ty: &str, field: &str) -> (coordinate: Self)
        ensures
            coordinate.ty.name.value@ == ty@,
            coordinate.name.value@ == field@,
            coordinate.ty.name.span == Span::default_span(),
            coordinate.name.span == Span::default_span(),
    {
        MemberCoordinate { ty: TypeCoordinate::new(ty), name: Name::new(field.to_owned()) }
    }

    pub fn ty(&self) -> (ty: &TypeCoordinate)
        ensures
            *ty == self.ty,
    {
        &self.ty
    }

    pub fn span(&self) -> (span: Span)
        ensures
            span == self.name.span,
    {
        self.name.span
    }

    pub fn name(&self) -> (name: &str)
        ensures
            name@ == self.name.value@,
    {
        self.name.value.as_str()
    }

    /// The coordinate as text: `Type.field`.
    pub fn to_string(&self) -> (text: String)
        ensures
            text@ == self.ty.name.value@ + "."@ + self.name.value@,
    {
        let mut text = self.ty.name.value.clone();
        append(&mut text, ".");
        append(&mut text, self.name.value.as_str());
        text
    }
}

#[derive(Clone, Debug, PartialEq, Eq)]
pub struct ArgumentCoordinate {
    pub member: MemberCoordinate,
    pub name: Name,
}

impl ArgumentCoordinate {
    pub fn new(ty: &str, field: &str, argument: &str) -> (coordinate: Self)
        ensures
            coordinate.member.ty.name.value@ == ty@,
            coordinate.member.name.value@ == field@,
            coordinate.name.value@ == argument@,
    {
        ArgumentCoordinate { member: MemberCoordinate::new(ty, field), name: Name::new(argument.to_owned()) }
    }

    pub fn member(&self) -> (member: &MemberCoordinate)
        ensures
            *member == self.member,
    {
        &self.member
    }

    pub fn span(&self) -> (span: Span)
        ensures
            span == self.name.span,
    {
        self.name.span
    }

    pub fn name(&self) -> (name: &str)
        ensures
            name@ == self.name.value@,
    {
        self.name.value.as_str()
    }

    /// The coordinate as text: `Type.field(argument:)`.
    pub fn to_string(&self) -> (text: String)
        ensures
            text@ == self.member.ty.name.value@ + "."@ + self.member.name.value@ + "("@
                + self.name.value@ + ":)"@,
    {
        let mut text = self.member.to_string();
        append(&mut text, "(");
        append(&mut text, self.name.value.as_str());
        append(&mut text, ":)");
        text
    }
}

/// A directive coordinate.  Two are equal when their names are.
#[derive(Clone, Debug)]
pub struct DirectiveCoordinate {
    pub name: Name,
    pub span: Span,
}

impl PartialEq for DirectiveCoordinate {
    fn eq(&self, other: &Self) -> (r: bool) {
        self.name.value == other.name.value
    }
}

impl vstd::std_specs::cmp::PartialEqSpecImpl for DirectiveCoordinate {
    open spec fn obeys_eq_spec() -> bool {
        true
    }

    open spec fn eq_spec(&self, other: &Self) -> bool {
        self.name.value@ == other.name.value@
    }
}

impl Eq for DirectiveCoordinate {}

impl DirectiveCoordinate {
    pub fn new(name: &str) -> (coordinate: Self)
        ensures
            coordinate.name.value@ == name@,
            coordinate.name.span == Span::default_span(),
            coordinate.span == Span::default_span(),
    {
        DirectiveCoordinate { name: Name::new(name.to_owned()), span: Span::new(0, 0) }
    }

    /// The span of the whole coordinate.
    pub fn span(&self) -> (span: Span)
        ensures
            span == self.span,
    {
        self.span
    }

    pub fn name_span(&self) -> (span: Span)
        ensures
            span == self.name.span,
    {
        self.name.span
    }

    pub fn name(&self) -> (name: &str)
        ensures
            name@ == self.name.value@,
    {
        self.name.value.as_str()
    }

    /// The coordinate as text: `@directive`.
    pub fn to_string(&self) -> (text: String)
        ensures
            text@ == "@"@ + self.name.value@,
    {
        let mut text = String::new();
        append(&mut text, "@");
        append(&mut text, self.name.value.as_str());
        proof {
            assert(Seq::<char>::empty() + "@"@ =~= "@"@);
        }
        text
    }
}

#[derive(Clone, Debug, PartialEq, Eq)]
pub struct DirectiveArgumentCoordinate {
    pub directive: DirectiveCoordinate,
    pub name: Name,
}

impl DirectiveArgumentCoordinate {
    pub fn new(name: &str, argument: &str) -> (coordinate: Self)
        ensures
            coordinate.directive.name.value@ == name@,
            coordinate.name.value@ == argument@,
    {
        DirectiveArgumentCoordinate { directive: DirectiveCoordinate::new(name), name: Name::new(argument.to_owned()) }
    }

    pub fn directive(&self) -> (directive: &DirectiveCoordinate)
        ensures
            *directive == self.directive,
    {
        &self.directive
    }

    pub fn span(&self) -> (span: Span)
        ensures
            span == self.name.span,
    {
        self.name.span
    }

    pub fn name(&self) -> (name: &str)
        ensures
            name@ == self.name.value@,
    {
        self.name.value.as_str()
    }

    /// The coordinate as text: `@directive(argument:)`.
    pub fn to_string(&self) -> (text: String)
        ensures
            text@ == "@"@ + self.directive.name.value@ + "("@ + self.name.value@ + ":)"@,
    {
        let mut text = self.directive.to_string();
        append(&mut text, "(");
        append(&mut text, self.name.value.as_str());
        append(&mut text, ":)");
        text
    }
}

/// A GraphQL schema coordinate.
#[derive(Clone, Debug, PartialEq, Eq)]
pub enum SchemaCoordinate {
    Type(TypeCoordinate),
    Member(MemberCoordinate),
    Argument(ArgumentCoordinate),
    Directive(DirectiveCoordinate),
    DirectiveArgument(DirectiveArgumentCoordinate),
}

/// The text of a coordinate.
pub open spec fn coordinate_text(coordinate: SchemaCoordinate) -> Seq<char> {
    match coordinate {
        SchemaCoordinate::Type(c) => c.name.value@,
        SchemaCoordinate::Member(c) => c.ty.name.value@ + "."@ + c.name.value@,
        SchemaCoordinate::Argument(c) => c.member.ty.name.value@ + "."@ + c.member.name.value@ + "("@
            + c.name.value@ + ":)"@,
        SchemaCoordinate::Directive(c) => "@"@ + c.name.value@,
        SchemaCoordinate::DirectiveArgument(c) => "@"@ + c.directive.name.value@ + "("@
            + c.name.value@ + ":)"@,
    }
}

impl SchemaCoordinate {
    pub fn ty(name: &str) -> (coordinate: Self)
        ensures
            coordinate matches SchemaCoordinate::Type(c) && c.name.value@ == name@,
    {
        SchemaCoordinate::Type(TypeCoordinate::new(name))
    }

    pub fn member(ty: &str, field: &str) -> (coordinate: Self)
        ensures
            coordinate matches SchemaCoordinate::Member(c) && c.ty.name.value@ == ty@
                && c.name.value@ == field@,
    {
        SchemaCoordinate::Member(MemberCoordinate::new(ty, field))
    }

    pub fn argument(ty: &str, field: &str, argument: &str) -> (coordinate: Self)
        ensures
            coordinate matches SchemaCoordinate::Argument(c) && c.member.ty.name.value@ == ty@
                && c.member.name.value@ == field@ && c.name.value@ == argument@,
    {
        SchemaCoordinate::Argument(ArgumentCoordinate::new(ty, field, argument))
    }

    pub fn directive(name: &str) -> (coordinate: Self)
        ensures
            coordinate matches SchemaCoordinate::Directive(c) && c.name.value@ == name@,
    {
        SchemaCoordinate::Directive(DirectiveCoordinate::new(name))
    }

    pub fn directive_argument(name: &str, argument: &str) -> (coordinate: Self)
        ensures
            coordinate matches SchemaCoordinate::DirectiveArgument(c) && c.directive.name.value@
                == name@ && c.name.value@ == argument@,
    {
        SchemaCoordinate::DirectiveArgument(DirectiveArgumentCoordinate::new(name, argument))
    }

    pub fn as_ty(&self) -> (r: Option<&TypeCoordinate>)
        ensures
            r == match self {
                SchemaCoordinate::Type(inner) => Some(inner),
                _ => None::<&TypeCoordinate>,
            },
    {
        match self {
            SchemaCoordinate::Type(inner) => Some(inner),
            _ => None,
        }
    }

    pub fn as_member(&self) -> (r: Option<&MemberCoordinate>)
        ensures
            r == match self {
                SchemaCoordinate::Member(inner) => Some(inner),
                _ => None::<&MemberCoordinate>,
            },
    {
        match self {
            SchemaCoordinate::Member(inner) => Some(inner),
            _ => None,
        }
    }

    pub fn as_argument(&self) -> (r: Option<&ArgumentCoordinate>)
        ensures
            r == match self {
                SchemaCoordinate::Argument(inner) => Some(inner),
                _ => None::<&ArgumentCoordinate>,
            },
    {
        match self {
            SchemaCoordinate::Argument(inner) => Some(inner),
            _ => None,
        }
    }

    pub fn as_directive(&self) -> (r: Option<&DirectiveCoordinate>)
        ensures
            r == match self {
                SchemaCoordinate::Directive(inner) => Some(inner),
                _ => None::<&DirectiveCoordinate>,
            },
    {
        match self {
            SchemaCoordinate::Directive(inner) => Some(inner),
            _ => None,
        }
    }

    pub fn as_directive_argument(&self) -> (r: Option<&DirectiveArgumentCoordinate>)
        ensures
            r == match self {
                SchemaCoordinate::DirectiveArgument(inner) => Some(inner),
                _ => None::<&DirectiveArgumentCoordinate>,
            },
    {
        match self {
            SchemaCoordinate::DirectiveArgument(inner) => Some(inner),
            _ => None,
        }
    }

    /// The coordinate as text.
    pub fn to_string(&self) -> (text: String)
        ensures
            text@ == coordinate_text(*self),
    {
        match self {
            SchemaCoordinate::Type(inner) => inner.to_string(),
            SchemaCoordinate::Member(inner) => inner.to_string(),
            SchemaCoordinate::Argument(inner) => inner.to_string(),
            SchemaCoordinate::Directive(inner) => inner.to_string(),
            SchemaCoordinate::DirectiveArgument(inner) => inner.to_string(),
        }
    }
}

} // verus!
