use vstd::prelude::*;
use crate::order::{ByteOrder, CodecTrait, Role};
use crate::schema::{classify, type_params, GenError, GenericParam, Input, PField, TypeDef, MAX_FIELDS};

verus! {

/// How a field of a record value is addressed: by label or by position.
#[derive(Clone, Debug, PartialEq, Eq)]
pub enum Key {
    Label(String),
    Position(u16),
}

/// How generated code names a field of the record, in an accessor or in a
/// record initialiser: by its label, or by the text of an integer literal
/// without a suffix.
#[derive(Clone, Debug, PartialEq, Eq)]
pub enum Member {
    Named(String),
    Unnamed(String),
}

/// One statement of a write procedure: the runtime's write operation of
/// `module`, applied to the field `target` of the record; a failure leaves the
/// procedure at once.
#[derive(Clone, Debug, PartialEq, Eq)]
pub struct WriteStep {
    pub module: ByteOrder,
    pub target: Member,
}

/// One entry of a read procedure: the runtime's read operation of `module`,
/// whose result initialises `member`; a failure leaves the procedure at once.
#[derive(Clone, Debug, PartialEq, Eq)]
pub struct ReadStep {
    pub module: ByteOrder,
    pub member: Member,
}

/// The body of a generated procedure: its steps in the order they run.
#[derive(Clone, Debug, PartialEq, Eq)]
pub enum Body {
    Write(Vec<WriteStep>),
    Read(Vec<ReadStep>),
}

/// One predicate of the constraint clause of an implementation: one that the
/// author wrote, or the bound of a type parameter to the trait that the block
/// implements.
#[derive(Clone, Debug, PartialEq, Eq)]
pub enum Predicate {
    Written(String),
    Bound(String),
}

/// A generated implementation of `trt` for the record `ident`: the parameters
/// it introduces, the names it hands on to the record type, its constraint
/// clause as a list of predicates, and its body.
#[derive(Clone, Debug, PartialEq, Eq)]
pub struct ImplBlock {
    pub trt: CodecTrait,
    pub ident: String,
    pub intro: Vec<String>,
    pub forward: Vec<String>,
    pub clause: Vec<Predicate>,
    pub body: Body,
}

/// The character of a decimal digit.
pub open spec fn digit(d: nat) -> char {
    seq!['0', '1', '2', '3', '4', '5', '6', '7', '8', '9'][d as int]
}

/// A number in decimal, without sign, padding or suffix.
pub open spec fn decimal(n: nat) -> Seq<char>
    decreases n,
{
    if n < 10 {
        seq![digit(n)]
    } else {
        decimal(n / 10).push(digit(n % 10))
    }
}

/// The text of `proc_macro2::Literal::u16_unsuffixed(i)`. The literal is made
/// from the number's decimal form and carries no suffix; the contract claims
/// that its text is exactly those digits.
#[verifier::external_body]
fn unsuffixed_literal(i: u16) -> (text: String)
    ensures
        text@ == decimal(i as nat),
{
    proc_macro2::Literal::u16_unsuffixed(i).to_string()
}

/// The key by which a classified field is addressed.
pub open spec fn key_of(f: PField) -> Key {
    match f {
        PField::Basic(label, _) => Key::Label(label),
        PField::Tuple(i, _) => Key::Position(i),
    }
}

/// Whether `member` is how generated code names the field `f`: its label, or
/// its position as a plain decimal index.
pub open spec fn is_member_of(member: Member, f: PField) -> bool {
    match f {
        PField::Basic(label, _) => member == Member::Named(label),
        PField::Tuple(i, _) => match member {
            Member::Unnamed(text) => text@ == decimal(i as nat),
            Member::Named(_) => false,
        },
    }
}

/// Whether `step` is the write step of the field `f`.
pub open spec fn is_write_step(step: WriteStep, f: PField, module: ByteOrder) -> bool {
    step.module == module && is_member_of(step.target, f)
}

/// Whether `step` is the read step of the field `f`.
pub open spec fn is_read_step(step: ReadStep, f: PField, module: ByteOrder) -> bool {
    step.module == module && is_member_of(step.member, f)
}

/// Whether `steps` are the write steps of a field list: one per field, in the
/// order of the list.
pub open spec fn are_write_steps(steps: Seq<WriteStep>, fs: Seq<PField>, module: ByteOrder) -> bool {
    &&& steps.len() == fs.len()
    &&& forall|i: int| 0 <= i < fs.len() ==> is_write_step(#[trigger] steps[i], fs[i], module)
}

/// Whether `steps` are the read steps of a field list: one per field, in the
/// order of the list.
pub open spec fn are_read_steps(steps: Seq<ReadStep>, fs: Seq<PField>, module: ByteOrder) -> bool {
    &&& steps.len() == fs.len()
    &&& forall|i: int| 0 <= i < fs.len() ==> is_read_step(#[trigger] steps[i], fs[i], module)
}

impl PField {
    /// The key by which the field is addressed.
    pub fn key(&self) -> (k: Key)
        ensures
            k == key_of(*self),
    {
        match self {
            PField::Basic(label, _) => Key::Label(label.clone()),
            PField::Tuple(i, _) => Key::Position(*i),
        }
    }

    /// How generated code names the field.
    pub fn member(&self) -> (m: Member)
        ensures
            is_member_of(m, *self),
    {
        match self {
            PField::Basic(label, _) => Member::Named(label.clone()),
            PField::Tuple(i, _) => Member::Unnamed(unsuffixed_literal(*i)),
        }
    }

    /// The statement that writes this field in the byte order `module`.
    pub fn write(&self, module: ByteOrder) -> (step: WriteStep)
        ensures
            is_write_step(step, *self, module),
    {
        WriteStep { module, target: self.member() }
    }

    /// The initialiser entry that reads this field in the byte order `module`.
    pub fn read(&self, module: ByteOrder) -> (step: ReadStep)
        ensures
            is_read_step(step, *self, module),
    {
        ReadStep { module, member: self.member() }
    }
}

/// The parameters that an implementation introduces: every parameter of the
/// definition in order, as declared, without its default.
pub open spec fn intro_decls(ps: Seq<GenericParam>) -> Seq<String> {
    Seq::new(ps.len(), |i: int| ps[i].decl)
}

/// The names that an implementation hands on to the record type: the name of
/// every parameter of the definition, in order.
pub open spec fn forward_names(ps: Seq<GenericParam>) -> Seq<String> {
    Seq::new(ps.len(), |i: int| ps[i].name)
}

/// The constraint clause of an implementation: the author's predicates as
/// written and in their order, followed by one bound per type parameter.
pub open spec fn merged_clause(written: Seq<String>, params: Seq<String>) -> Seq<Predicate> {
    Seq::new(
        written.len() + params.len(),
        |i: int|
            if i < written.len() {
                Predicate::Written(written[i])
            } else {
                Predicate::Bound(params[i - written.len()])
            },
    )
}

impl ImplBlock {
    /// Whether the header of the block is the one that `schema` gets for the
    /// trait `trt`: the same identifier and parameters, and a clause that
    /// holds the author's predicates followed by one bound per type
    /// parameter.
    pub open spec fn heads(self, schema: Input, trt: CodecTrait) -> bool {
        &&& self.trt == trt
        &&& self.ident == schema.ident
        &&& self.intro@ == intro_decls(schema.generics.1.params@)
        &&& self.forward@ == forward_names(schema.generics.1.params@)
        &&& self.clause@ == merged_clause(schema.generics.1.predicates@, schema.generics.0@)
    }

    /// Whether the body of the block walks `fields` in their order, in the
    /// direction and byte order of `trt`.
    pub open spec fn walks(self, fields: Seq<PField>, trt: CodecTrait) -> bool {
        match self.body {
            Body::Write(steps) => trt.role is Writable && are_write_steps(steps@, fields, trt.module),
            Body::Read(steps) => trt.role is Readable && are_read_steps(steps@, fields, trt.module),
        }
    }

    /// Whether the block is the implementation of `trt` generated for the
    /// struct `def`: its header names the struct with its parameters, keeps
    /// the author's predicates and binds every type parameter to `trt` behind
    /// them; its body walks the classified fields in declaration order.
    pub open spec fn generated_for(self, def: TypeDef, trt: CodecTrait) -> bool {
        &&& self.trt == trt
        &&& self.ident == def.ident
        &&& self.intro@ == intro_decls(def.generics.params@)
        &&& self.forward@ == forward_names(def.generics.params@)
        &&& self.clause@ == merged_clause(
            def.generics.predicates@,
            type_params(def.generics.params@),
        )
        &&& self.walks(classify(def.fields@), trt)
    }
}

/// Whether a member names the field that `key` addresses.
pub open spec fn names_field(member: Member, key: Key) -> bool {
    match (member, key) {
        (Member::Named(a), Key::Label(b)) => a == b,
        (Member::Unnamed(text), Key::Position(i)) => text@ == decimal(i as nat),
        _ => false,
    }
}

/// The read procedure mirrors the write procedure: both have one step per
/// field, and step `i` of either names field `i`, in the same byte order.
pub proof fn lemma_read_mirrors_write(
    writes: Seq<WriteStep>,
    reads: Seq<ReadStep>,
    fields: Seq<PField>,
    module: ByteOrder,
)
    requires
        are_write_steps(writes, fields, module),
        are_read_steps(reads, fields, module),
    ensures
        writes.len() == fields.len(),
        reads.len() == fields.len(),
        forall|i: int|
            0 <= i < fields.len() ==> {
                &&& names_field((#[trigger] reads[i]).member, key_of(fields[i]))
                &&& names_field(writes[i].target, key_of(fields[i]))
                &&& reads[i].module == writes[i].module
            },
{
    assert forall|i: int| 0 <= i < fields.len() implies {
        &&& names_field((#[trigger] reads[i]).member, key_of(fields[i]))
        &&& names_field(writes[i].target, key_of(fields[i]))
        &&& reads[i].module == writes[i].module
    } by {
        assert(is_read_step(reads[i], fields[i], module));
        assert(is_write_step(writes[i], fields[i], module));
    }
}

impl Input {
    /// The implementation block of `trt` around `body`. The author's
    /// predicates are kept as they are and in their order, and every type
    /// parameter is bound to `trt` behind them.
    pub fn impl_block(&self, trt: CodecTrait, body: Body) -> (block: ImplBlock)
        ensures
            block.heads(*self, trt),
            block.body == body,
    {
        let generics = &self.generics.1;
        let mut intro: Vec<String> = Vec::new();
        let mut forward: Vec<String> = Vec::new();
        let mut i: usize = 0;
        while i < generics.params.len()
            invariant
                i <= generics.params.len(),
                intro@ == intro_decls(generics.params@).take(i as int),
                forward@ == forward_names(generics.params@).take(i as int),
            decreases generics.params.len() - i,
        {
            intro.push(generics.params[i].decl.clone());
            forward.push(generics.params[i].name.clone());
            assert(intro@ =~= intro_decls(generics.params@).take(i + 1));
            assert(forward@ =~= forward_names(generics.params@).take(i + 1));
            i += 1;
        }
        assert(intro@ =~= intro_decls(generics.params@));
        assert(forward@ =~= forward_names(generics.params@));
        let ghost merged = merged_clause(generics.predicates@, self.generics.0@);
        let mut clause: Vec<Predicate> = Vec::new();
        let mut j: usize = 0;
        while j < generics.predicates.len()
            invariant
                j <= generics.predicates.len(),
                merged == merged_clause(generics.predicates@, self.generics.0@),
                clause@ == merged.take(j as int),
            decreases generics.predicates.len() - j,
        {
            clause.push(Predicate::Written(generics.predicates[j].clone()));
            assert(clause@ =~= merged.take(j + 1));
            j += 1;
        }
        let mut k: usize = 0;
        while k < self.generics.0.len()
            invariant
                k <= self.generics.0.len(),
                merged == merged_clause(generics.predicates@, self.generics.0@),
                clause@ == merged.take(generics.predicates.len() + k),
            decreases self.generics.0.len() - k,
        {
            clause.push(Predicate::Bound(self.generics.0[k].clone()));
            assert(clause@ =~= merged.take(generics.predicates.len() + k + 1));
            k += 1;
        }
        assert(clause@ =~= merged);
        ImplBlock { trt, ident: self.ident.clone(), intro, forward, clause, body }
    }

    /// The write steps of the record in the byte order `module`.
    pub fn write_body(&self, module: ByteOrder) -> (steps: Vec<WriteStep>)
        ensures
            are_write_steps(steps@, self.fields@, module),
    {
        let mut steps: Vec<WriteStep> = Vec::new();
        let mut i: usize = 0;
        while i < self.fields.len()
            invariant
                i <= self.fields.len(),
                are_write_steps(steps@, self.fields@.take(i as int), module),
            decreases self.fields.len() - i,
        {
            steps.push(self.fields[i].write(module));
            i += 1;
        }
        assert(self.fields@.take(i as int) =~= self.fields@);
        steps
    }

    /// The read steps of the record in the byte order `module`.
    pub fn read_body(&self, module: ByteOrder) -> (steps: Vec<ReadStep>)
        ensures
            are_read_steps(steps@, self.fields@, module),
    {
        let mut steps: Vec<ReadStep> = Vec::new();
        let mut i: usize = 0;
        while i < self.fields.len()
            invariant
                i <= self.fields.len(),
                are_read_steps(steps@, self.fields@.take(i as int), module),
            decreases self.fields.len() - i,
        {
            steps.push(self.fields[i].read(module));
            i += 1;
        }
        assert(self.fields@.take(i as int) =~= self.fields@);
        steps
    }
}

/// Generates the two write implementations of a definition, little-endian
/// first. Fields are written in order of declaration.
pub fn impl_write(def: &TypeDef) -> (r: Result<(ImplBlock, ImplBlock), GenError>)
    requires
        def.shape is Struct ==> def.fields.len() <= MAX_FIELDS,
    ensures
        match r {
            Ok((le, be)) => {
                &&& def.shape is Struct
                &&& le.generated_for(*def, (CodecTrait { module: ByteOrder::Little, role: Role::Writable }))
                &&& be.generated_for(*def, (CodecTrait { module: ByteOrder::Big, role: Role::Writable }))
            },
            Err(e) => !(def.shape is Struct) && e is UnsupportedShape,
        },
{
    let input = match Input::parse(def) {
        Ok(input) => input,
        Err(e) => {
            return Err(e);
        },
    };
    let le_block = input.impl_block(
        CodecTrait { module: ByteOrder::Little, role: Role::Writable },
        Body::Write(input.write_body(ByteOrder::Little)),
    );
    let be_block = input.impl_block(
        CodecTrait { module: ByteOrder::Big, role: Role::Writable },
        Body::Write(input.write_body(ByteOrder::Big)),
    );
    Ok((le_block, be_block))
}

/// Generates the two read implementations of a definition, little-endian
/// first. Fields are read in order of declaration.
pub fn impl_read(def: &TypeDef) -> (r: Result<(ImplBlock, ImplBlock), GenError>)
    requires
        def.shape is Struct ==> def.fields.len() <= MAX_FIELDS,
    ensures
        match r {
            Ok((le, be)) => {
                &&& def.shape is Struct
                &&& le.generated_for(*def, (CodecTrait { module: ByteOrder::Little, role: Role::Readable }))
                &&& be.generated_for(*def, (CodecTrait { module: ByteOrder::Big, role: Role::Readable }))
            },
            Err(e) => !(def.shape is Struct) && e is UnsupportedShape,
        },
{
    let input = match Input::parse(def) {
        Ok(input) => input,
        Err(e) => {
            return Err(e);
        },
    };
    let le_block = input.impl_block(
        CodecTrait { module: ByteOrder::Little, role: Role::Readable },
        Body::Read(input.read_body(ByteOrder::Little)),
    );
    let be_block = input.impl_block(
        CodecTrait { module: ByteOrder::Big, role: Role::Readable },
        Body::Read(input.read_body(ByteOrder::Big)),
    );
    Ok((le_block, be_block))
}

} // verus!
