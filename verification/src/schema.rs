use vstd::prelude::*;

verus! {

/// The shape of a type definition.
#[derive(Clone, Copy, Debug, PartialEq, Eq)]
pub enum Shape {
    Struct,
    Enum,
    Union,
}

/// What a generic parameter ranges over.
#[derive(Clone, Copy, Debug, PartialEq, Eq)]
pub enum ParamKind {
    Type,
    Lifetime,
    Const,
}

/// One generic parameter of a definition.
#[derive(Clone, Debug, PartialEq, Eq)]
pub struct GenericParam {
    pub kind: ParamKind,
    /// The name alone: `T`, `'a`, `N`.
    pub name: String,
    /// The declaration with its inline bounds and without its default:
    /// `T: Clone`, `'a: 'b`, `const N: usize`.
    pub decl: String,
    /// The default, where one is written.
    pub default: Option<String>,
}

/// The generic declaration of a definition: every parameter in order, and the
/// predicates of the constraint clause the author wrote, in order. A
/// definition without a clause has no predicates.
#[derive(Clone, Debug, PartialEq, Eq)]
pub struct Generics {
    pub params: Vec<GenericParam>,
    pub predicates: Vec<String>,
}

/// A field as declared: an optional label, the text of its type, and the
/// markers of the `raad` namespace that it carries. Markers are accepted and
/// have no effect on what is generated.
#[derive(Clone, Debug, PartialEq, Eq)]
pub struct FieldDef {
    pub label: Option<String>,
    pub ty: String,
    pub markers: Vec<String>,
}

/// A type definition as handed to the generator.
#[derive(Clone, Debug, PartialEq, Eq)]
pub struct TypeDef {
    pub ident: String,
    pub generics: Generics,
    pub shape: Shape,
    pub fields: Vec<FieldDef>,
}

/// A classified field: addressed by label, or by its position.
#[derive(Clone, Debug, PartialEq, Eq)]
pub enum PField {
    Basic(String, String),
    Tuple(u16, String),
}

/// The schema of a record: the names of its type parameters beside the full
/// generic declaration, its identifier, and its fields in declaration order.
#[derive(Debug, PartialEq, Eq)]
pub struct Input {
    pub generics: (Vec<String>, Generics),
    pub ident: String,
    pub fields: Vec<PField>,
}

/// Why no codec can be generated for a definition.
#[derive(Clone, Copy, Debug, PartialEq, Eq)]
pub enum GenError {
    /// The definition is not a struct.
    UnsupportedShape,
}

impl GenError {
    /// The text reported at the definition.
    pub fn message(&self) -> (text: &'static str)
        ensures
            text@ == "only structs are supported for codegen"@,
    {
        "only structs are supported for codegen"
    }
}

/// The largest number of fields whose positions fit a `u16`.
pub const MAX_FIELDS: usize = 65536;

/// The names of the type parameters among `ps`, in order; lifetime and
/// constant parameters are left out.
pub open spec fn type_params(ps: Seq<GenericParam>) -> Seq<String>
    decreases ps.len(),
{
    if ps.len() == 0 {
        Seq::empty()
    } else {
        let before = type_params(ps.drop_last());
        match ps.last().kind {
            ParamKind::Type => before.push(ps.last().name),
            _ => before,
        }
    }
}

/// The field at position `i`, classified by whether it carries a label.
pub open spec fn classify_field(f: FieldDef, i: int) -> PField {
    match f.label {
        Some(label) => PField::Basic(label, f.ty),
        None => PField::Tuple(i as u16, f.ty),
    }
}

/// Every field classified, in declaration order.
pub open spec fn classify(fs: Seq<FieldDef>) -> Seq<PField> {
    Seq::new(fs.len(), |i: int| classify_field(fs[i], i))
}

impl Generics {
    /// Two generic declarations with the same parameters and the same clause.
    pub open spec fn same(self, other: Generics) -> bool {
        &&& self.params@ == other.params@
        &&& self.predicates@ == other.predicates@
    }

    /// A copy of the declaration.
    pub fn duplicate(&self) -> (r: Generics)
        ensures
            r.same(*self),
    {
        let mut params: Vec<GenericParam> = Vec::new();
        let mut i: usize = 0;
        while i < self.params.len()
            invariant
                i <= self.params.len(),
                params@ == self.params@.take(i as int),
            decreases self.params.len() - i,
        {
            let p = &self.params[i];
            let default = match &p.default {
                Some(d) => Some(d.clone()),
                None => None,
            };
            params.push(GenericParam { kind: p.kind, name: p.name.clone(), decl: p.decl.clone(), default });
            assert(params@ =~= self.params@.take(i + 1));
            i += 1;
        }
        assert(self.params@.take(i as int) =~= self.params@);
        let mut predicates: Vec<String> = Vec::new();
        let mut j: usize = 0;
        while j < self.predicates.len()
            invariant
                j <= self.predicates.len(),
                predicates@ == self.predicates@.take(j as int),
            decreases self.predicates.len() - j,
        {
            predicates.push(self.predicates[j].clone());
            assert(predicates@ =~= self.predicates@.take(j + 1));
            j += 1;
        }
        assert(self.predicates@.take(j as int) =~= self.predicates@);
        Generics { params, predicates }
    }

    /// The names of the type parameters, in order.
    pub fn type_param_names(&self) -> (names: Vec<String>)
        ensures
            names@ == type_params(self.params@),
    {
        let mut names: Vec<String> = Vec::new();
        let mut i: usize = 0;
        while i < self.params.len()
            invariant
                i <= self.params.len(),
                names@ == type_params(self.params@.take(i as int)),
            decreases self.params.len() - i,
        {
            let p = &self.params[i];
            assert(self.params@.take(i + 1).drop_last() =~= self.params@.take(i as int));
            match p.kind {
                ParamKind::Type => {
                    names.push(p.name.clone());
                },
                _ => {},
            }
            i += 1;
        }
        assert(self.params@.take(i as int) =~= self.params@);
        names
    }
}

impl FieldDef {
    /// Classifies the field declared at position `i`.
    pub fn classify_at(&self, i: u16) -> (f: PField)
        ensures
            f == classify_field(*self, i as int),
    {
        match &self.label {
            None => PField::Tuple(i, self.ty.clone()),
            Some(label) => PField::Basic(label.clone(), self.ty.clone()),
        }
    }
}

impl Input {
    /// What `parse` returns for a struct definition.
    pub open spec fn extracted_from(self, def: TypeDef) -> bool {
        &&& self.ident == def.ident
        &&& self.generics.0@ == type_params(def.generics.params@)
        &&& self.generics.1.same(def.generics)
        &&& self.fields@ == classify(def.fields@)
    }

    /// Extracts the schema of a definition. Only structs have one; every other
    /// shape is refused.
    pub fn parse(def: &TypeDef) -> (r: Result<Input, GenError>)
        requires
            def.shape is Struct ==> def.fields.len() <= MAX_FIELDS,
        ensures
            match r {
                Ok(input) => def.shape is Struct && input.extracted_from(*def),
                Err(e) => !(def.shape is Struct) && e is UnsupportedShape,
            },
    {
        match def.shape {
            Shape::Struct => {},
            _ => {
                return Err(GenError::UnsupportedShape);
            },
        }
        let params = def.generics.type_param_names();
        let mut fields: Vec<PField> = Vec::new();
        let mut i: usize = 0;
        while i < def.fields.len()
            invariant
                i <= def.fields.len() <= MAX_FIELDS,
                fields@ == classify(def.fields@).take(i as int),
            decreases def.fields.len() - i,
        {
            let f = def.fields[i].classify_at(i as u16);
            fields.push(f);
            assert(fields@ =~= classify(def.fields@).take(i + 1));
            i += 1;
        }
        assert(classify(def.fields@).take(i as int) =~= classify(def.fields@));
        Ok(Input { fields, ident: def.ident.clone(), generics: (params, def.generics.duplicate()) })
    }
}

} // verus!
