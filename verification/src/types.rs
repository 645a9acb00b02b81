//! The type catalog: field kinds, field and type descriptors, their XSD
//! mapping, and the mathematical models (views) the contracts speak of.

use vstd::prelude::*;
use crate::attributes::{spec_valid_identifier, DefinitionError};
use crate::functions::{OperationModel, SoapOperation};
use crate::text::str_eq;

verus! {

/// The kind of one field of a request or response type: a primitive, an
/// optional or repeated wrapper around a kind, or a reference to another
/// named type of the catalog.
#[derive(Debug)]
pub enum FieldKind {
    Text,
    Int32,
    Int64,
    Float32,
    Float64,
    Boolean,
    Optional(Box<FieldKind>),
    ListOf(Box<FieldKind>),
    Custom(String),
}

/// The mathematical model of a `FieldKind`: the same shape, with the
/// referenced type name as a sequence of characters.
#[verifier::ext_equal]
pub enum KindModel {
    Text,
    Int32,
    Int64,
    Float32,
    Float64,
    Boolean,
    Optional(Box<KindModel>),
    ListOf(Box<KindModel>),
    Custom(Seq<char>),
}

/// One field of a type: its declared (logical) name, the name it carries
/// on the wire, and its kind.
#[derive(Debug)]
pub struct FieldInfo {
    pub logical_name: String,
    pub xml_name: String,
    pub kind: FieldKind,
}

/// The mathematical model of a field.
#[verifier::ext_equal]
pub struct FieldModel {
    pub logical_name: Seq<char>,
    pub xml_name: Seq<char>,
    pub kind: KindModel,
}

/// A named type: its name and its fields, in declaration order. The field
/// order is significant: it is the XML sequence order.
#[derive(Debug)]
pub struct TypeInfo {
    pub name: String,
    pub fields: Vec<FieldInfo>,
}

/// The mathematical model of a named type.
#[verifier::ext_equal]
pub struct TypeModel {
    pub name: Seq<char>,
    pub fields: Seq<FieldModel>,
}

/// The model of a kind.
pub open spec fn kind_model(k: FieldKind) -> KindModel
    decreases k,
{
    match k {
        FieldKind::Text => KindModel::Text,
        FieldKind::Int32 => KindModel::Int32,
        FieldKind::Int64 => KindModel::Int64,
        FieldKind::Float32 => KindModel::Float32,
        FieldKind::Float64 => KindModel::Float64,
        FieldKind::Boolean => KindModel::Boolean,
        FieldKind::Optional(inner) => KindModel::Optional(Box::new(kind_model(*inner))),
        FieldKind::ListOf(inner) => KindModel::ListOf(Box::new(kind_model(*inner))),
        FieldKind::Custom(name) => KindModel::Custom(name@),
    }
}

impl View for FieldKind {
    type V = KindModel;

    open spec fn view(&self) -> KindModel {
        kind_model(*self)
    }
}

impl View for FieldInfo {
    type V = FieldModel;

    open spec fn view(&self) -> FieldModel {
        FieldModel {
            logical_name: self.logical_name@,
            xml_name: self.xml_name@,
            kind: self.kind@,
        }
    }
}

impl View for TypeInfo {
    type V = TypeModel;

    open spec fn view(&self) -> TypeModel {
        TypeModel {
            name: self.name@,
            fields: Seq::new(self.fields@.len(), |i: int| self.fields@[i]@),
        }
    }
}

/// The XSD type name a kind is written as: primitives map to the fixed
/// table, a custom type refers to its schema complex type, and optional
/// and repeated wrappers take the inner kind's XSD type.
pub open spec fn spec_xsd_type(k: KindModel) -> Seq<char>
    decreases k,
{
    match k {
        KindModel::Text => "xsd:string"@,
        KindModel::Int32 => "xsd:int"@,
        KindModel::Int64 => "xsd:long"@,
        KindModel::Float32 => "xsd:float"@,
        KindModel::Float64 => "xsd:double"@,
        KindModel::Boolean => "xsd:boolean"@,
        KindModel::Optional(inner) => spec_xsd_type(*inner),
        KindModel::ListOf(inner) => spec_xsd_type(*inner),
        KindModel::Custom(name) => "tns:"@ + name + "Type"@,
    }
}

/// A field is required exactly when its kind is not optional.
pub open spec fn spec_field_required(k: KindModel) -> bool {
    !(k is Optional)
}

impl FieldKind {
    /// Copies the kind; the copy has the original's model.
    pub fn duplicate(&self) -> (r: FieldKind)
        ensures
            r@ == self@,
        decreases *self,
    {
        match self {
            FieldKind::Text => FieldKind::Text,
            FieldKind::Int32 => FieldKind::Int32,
            FieldKind::Int64 => FieldKind::Int64,
            FieldKind::Float32 => FieldKind::Float32,
            FieldKind::Float64 => FieldKind::Float64,
            FieldKind::Boolean => FieldKind::Boolean,
            FieldKind::Optional(inner) => FieldKind::Optional(Box::new(inner.duplicate())),
            FieldKind::ListOf(inner) => FieldKind::ListOf(Box::new(inner.duplicate())),
            FieldKind::Custom(name) => FieldKind::Custom(name.clone()),
        }
    }

    /// Decides whether two kinds have the same model.
    pub fn same_as(&self, other: &FieldKind) -> (r: bool)
        ensures
            r == (self@ == other@),
        decreases *self,
    {
        match (self, other) {
            (FieldKind::Text, FieldKind::Text) => true,
            (FieldKind::Int32, FieldKind::Int32) => true,
            (FieldKind::Int64, FieldKind::Int64) => true,
            (FieldKind::Float32, FieldKind::Float32) => true,
            (FieldKind::Float64, FieldKind::Float64) => true,
            (FieldKind::Boolean, FieldKind::Boolean) => true,
            (FieldKind::Optional(x), FieldKind::Optional(y)) => x.same_as(y),
            (FieldKind::ListOf(x), FieldKind::ListOf(y)) => x.same_as(y),
            (FieldKind::Custom(n), FieldKind::Custom(m)) => str_eq(n.as_str(), m.as_str()),
            _ => false,
        }
    }

    /// Writes the kind's XSD type name.
    pub fn xsd_type(&self) -> (r: String)
        ensures
            r@ == spec_xsd_type(self@),
        decreases *self,
    {
        match self {
            FieldKind::Text => String::from_str("xsd:string"),
            FieldKind::Int32 => String::from_str("xsd:int"),
            FieldKind::Int64 => String::from_str("xsd:long"),
            FieldKind::Float32 => String::from_str("xsd:float"),
            FieldKind::Float64 => String::from_str("xsd:double"),
            FieldKind::Boolean => String::from_str("xsd:boolean"),
            FieldKind::Optional(inner) => inner.xsd_type(),
            FieldKind::ListOf(inner) => inner.xsd_type(),
            FieldKind::Custom(name) => {
                let mut out = String::from_str("tns:");
                out.append(name.as_str());
                out.append("Type");
                out
            },
        }
    }
}

impl FieldInfo {
    /// A field whose wire name is its declared name, the default when no
    /// rename is given.
    pub fn named(logical_name: String, kind: FieldKind) -> (r: FieldInfo)
        ensures
            r@ == (FieldModel {
                logical_name: logical_name@,
                xml_name: logical_name@,
                kind: kind@,
            }),
    {
        let xml_name = logical_name.clone();
        FieldInfo { logical_name, xml_name, kind }
    }

    /// A field carrying an explicit rename: the wire name is the renamed one.
    pub fn renamed(logical_name: String, xml_name: String, kind: FieldKind) -> (r: FieldInfo)
        ensures
            r@ == (FieldModel {
                logical_name: logical_name@,
                xml_name: xml_name@,
                kind: kind@,
            }),
    {
        FieldInfo { logical_name, xml_name, kind }
    }

    /// The field's XSD type name.
    pub fn field_type(&self) -> (r: String)
        ensures
            r@ == spec_xsd_type(self@.kind),
    {
        self.kind.xsd_type()
    }

    /// Whether the field may be absent: true exactly for an optional kind.
    pub fn optional(&self) -> (r: bool)
        ensures
            r == !spec_field_required(self@.kind),
    {
        match &self.kind {
            FieldKind::Optional(_) => true,
            _ => false,
        }
    }

    /// Copies the field; the copy has the original's model.
    pub fn duplicate(&self) -> (r: FieldInfo)
        ensures
            r@ == self@,
    {
        FieldInfo {
            logical_name: self.logical_name.clone(),
            xml_name: self.xml_name.clone(),
            kind: self.kind.duplicate(),
        }
    }

    /// Decides whether two fields have the same model.
    pub fn same_as(&self, other: &FieldInfo) -> (r: bool)
        ensures
            r == (self@ == other@),
    {
        let r = str_eq(self.logical_name.as_str(), other.logical_name.as_str()) && str_eq(
            self.xml_name.as_str(),
            other.xml_name.as_str(),
        ) && self.kind.same_as(&other.kind);
        proof {
            if self@.logical_name == other@.logical_name && self@.xml_name == other@.xml_name
                && self@.kind == other@.kind {
                assert(self@ =~= other@);
            }
        }
        r
    }
}

impl TypeInfo {
    /// Copies the descriptor; the copy has the original's model.
    pub fn duplicate(&self) -> (r: TypeInfo)
        ensures
            r@ == self@,
    {
        let mut fields: Vec<FieldInfo> = Vec::new();
        let n = self.fields.len();
        let mut i: usize = 0;
        while i < n
            invariant
                n == self.fields@.len(),
                0 <= i <= n,
                fields@.len() == i,
                forall|j: int| 0 <= j < i ==> #[trigger] fields@[j]@ == self.fields@[j]@,
            decreases n - i,
        {
            fields.push(self.fields[i].duplicate());
            i = i + 1;
        }
        let r = TypeInfo { name: self.name.clone(), fields };
        proof {
            assert(r@.fields =~= self@.fields);
            assert(r@ =~= self@);
        }
        r
    }

    /// Decides whether two descriptors have the same model.
    pub fn same_as(&self, other: &TypeInfo) -> (r: bool)
        ensures
            r == (self@ == other@),
    {
        if !str_eq(self.name.as_str(), other.name.as_str()) {
            assert(self@.name != other@.name);
            return false;
        }
        let n = self.fields.len();
        if n != other.fields.len() {
            assert(self@.fields.len() != other@.fields.len());
            return false;
        }
        let mut i: usize = 0;
        while i < n
            invariant
                n == self.fields@.len(),
                n == other.fields@.len(),
                self.name@ == other.name@,
                0 <= i <= n,
                forall|j: int| 0 <= j < i ==> #[trigger] self.fields@[j]@ == other.fields@[j]@,
            decreases n - i,
        {
            if !self.fields[i].same_as(&other.fields[i]) {
                assert(self@.fields[i as int] != other@.fields[i as int]);
                return false;
            }
            i = i + 1;
        }
        proof {
            assert(self@.fields =~= other@.fields);
            assert(self@ =~= other@);
        }
        true
    }
}

/// Derives the descriptor of one named type from its declared name and its
/// fields: the name must be a plain identifier, as only named structural
/// types can stand in the schema.
pub fn analyze_type(name: String, fields: Vec<FieldInfo>) -> (r: Result<TypeInfo, DefinitionError>)
    ensures
        r is Ok <==> spec_valid_identifier(name@),
        r is Ok ==> r->Ok_0.name@ == name@ && r->Ok_0.fields@ == fields@,
        r is Err ==> r->Err_0.msg@ == "Only named types are supported for SOAP operations"@,
{
    match crate::attributes::validate_identifier(name.as_str(), "type name") {
        Ok(_) => Ok(TypeInfo { name, fields }),
        Err(_) => Err(
            DefinitionError {
                msg: String::from_str("Only named types are supported for SOAP operations"),
            },
        ),
    }
}

/// The models of a sequence of type descriptors.
pub open spec fn types_models(s: Seq<TypeInfo>) -> Seq<TypeModel> {
    Seq::new(s.len(), |i: int| s[i]@)
}

/// The models of a sequence of operations.
pub open spec fn ops_models(s: Seq<SoapOperation>) -> Seq<OperationModel> {
    Seq::new(s.len(), |i: int| s[i]@)
}

/// No two catalog entries share a name.
pub open spec fn unique_type_names(cat: Seq<TypeModel>) -> bool {
    forall|i: int, j: int| 0 <= i < j < cat.len() ==> cat[i].name != cat[j].name
}

/// What inserting `t` into the catalog yields: an entry of the same name
/// must be structurally identical (then the catalog is unchanged); a
/// structurally different type under a known name is a definition error;
/// a new name is appended at the end.
pub open spec fn spec_insert_type(cat: Seq<TypeModel>, t: TypeModel) -> Result<
    Seq<TypeModel>,
    Seq<char>,
> {
    if exists|i: int| 0 <= i < cat.len() && (#[trigger] cat[i]).name == t.name {
        if forall|i: int| 0 <= i < cat.len() && (#[trigger] cat[i]).name == t.name ==> cat[i] == t {
            Ok(cat)
        } else {
            Err("Conflicting definitions for type: "@ + t.name)
        }
    } else {
        Ok(cat.push(t))
    }
}

/// What collecting the request and response types of the operations, in
/// order, yields starting from catalog `cat`.
pub open spec fn spec_collect_types(ops: Seq<OperationModel>, cat: Seq<TypeModel>) -> Result<
    Seq<TypeModel>,
    Seq<char>,
>
    decreases ops.len(),
{
    if ops.len() == 0 {
        Ok(cat)
    } else {
        match spec_insert_type(cat, ops[0].request_type) {
            Err(e) => Err(e),
            Ok(c1) => match spec_insert_type(c1, ops[0].response_type) {
                Err(e) => Err(e),
                Ok(c2) => spec_collect_types(ops.drop_first(), c2),
            },
        }
    }
}

/// Inserts one type into the catalog as `spec_insert_type` says; the
/// catalog's names stay unique.
fn insert_type(cat: &mut Vec<TypeInfo>, t: &TypeInfo) -> (r: Result<(), DefinitionError>)
    requires
        unique_type_names(types_models(old(cat)@)),
    ensures
        unique_type_names(types_models(final(cat)@)),
        match r {
            Ok(_) => spec_insert_type(types_models(old(cat)@), t@) == Ok::<_, Seq<char>>(
                types_models(final(cat)@),
            ),
            Err(e) => spec_insert_type(types_models(old(cat)@), t@) == Err::<Seq<TypeModel>, _>(
                e.msg@,
            ),
        },
{
    let ghost cat0 = types_models(cat@);
    let n = cat.len();
    let mut j: usize = 0;
    while j < n
        invariant
            n == cat@.len(),
            0 <= j <= n,
            cat0 == types_models(cat@),
            unique_type_names(cat0),
            forall|k: int| 0 <= k < j ==> (#[trigger] cat0[k]).name != t@.name,
        decreases n - j,
    {
        if str_eq(cat[j].name.as_str(), t.name.as_str()) {
            assert(cat0[j as int].name == t@.name);
            if cat[j].same_as(t) {
                assert forall|i: int|
                    0 <= i < cat0.len() && (#[trigger] cat0[i]).name == t@.name implies cat0[i]
                    == t@ by {
                    if i != j {
                        assert(cat0[i].name != cat0[j as int].name);
                    }
                }
                return Ok(());
            } else {
                assert(cat0[j as int].name == t@.name && cat0[j as int] != t@);
                let mut msg = String::from_str("Conflicting definitions for type: ");
                msg.append(t.name.as_str());
                return Err(DefinitionError { msg });
            }
        }
        j = j + 1;
    }
    assert(forall|i: int| 0 <= i < cat0.len() ==> (#[trigger] cat0[i]).name != t@.name);
    cat.push(t.duplicate());
    proof {
        assert(types_models(cat@) =~= cat0.push(t@));
    }
    Ok(())
}

/// Collects the distinct request and response types of all operations, in
/// first-occurrence order, exactly as `spec_collect_types` reads them from
/// an empty catalog. The returned catalog's type names are unique.
pub fn collect_types_from_operations(operations: &Vec<SoapOperation>) -> (r: Result<
    Vec<TypeInfo>,
    DefinitionError,
>)
    ensures
        match r {
            Ok(v) => spec_collect_types(ops_models(operations@), Seq::empty()) == Ok::<
                _,
                Seq<char>,
            >(types_models(v@)) && unique_type_names(types_models(v@)),
            Err(e) => spec_collect_types(ops_models(operations@), Seq::empty()) == Err::<
                Seq<TypeModel>,
                _,
            >(e.msg@),
        },
{
    let ghost all_ops = ops_models(operations@);
    let mut cat: Vec<TypeInfo> = Vec::new();
    let n = operations.len();
    let mut i: usize = 0;
    proof {
        assert(all_ops.skip(0) =~= all_ops);
        assert(types_models(cat@) =~= Seq::<TypeModel>::empty());
    }
    while i < n
        invariant
            n == operations@.len(),
            0 <= i <= n,
            all_ops == ops_models(operations@),
            unique_type_names(types_models(cat@)),
            spec_collect_types(all_ops, Seq::empty()) == spec_collect_types(
                all_ops.skip(i as int),
                types_models(cat@),
            ),
        decreases n - i,
    {
        proof {
            assert(all_ops.skip(i as int)[0] == operations@[i as int]@);
            assert(all_ops.skip(i as int).drop_first() =~= all_ops.skip(i + 1));
        }
        match insert_type(&mut cat, &operations[i].request_type) {
            Ok(_) => {},
            Err(e) => {
                return Err(e);
            },
        }
        match insert_type(&mut cat, &operations[i].response_type) {
            Ok(_) => {},
            Err(e) => {
                return Err(e);
            },
        }
        i = i + 1;
    }
    proof {
        assert(all_ops.skip(n as int) =~= Seq::<OperationModel>::empty());
    }
    Ok(cat)
}

} // verus!
