//! What is written to an Ipto repository: correlation identifiers, units, and the steps of
//! a write.

use vstd::prelude::*;
use vstd::utf8::encode_utf8;
use crate::data::{IdempotencyKey, MetadataValue, MetadataValueView};
use crate::hash::{fnv, fnv_fold, fnv_step, fnv_update, FNV_OFFSET, FNV_PRIME};
use crate::ipto::{attribute_names, IptoAttributeName, IptoWritePayload, PayloadView};
use crate::ordered::{views, SortedMap};
use crate::outbox::{IptoWriteError, WriteErrorView};
use crate::text::{fixed_hex, lemma_fixed_hex_len, push_fixed_hex, push_text};

verus! {

/// Schema of the provenance attributes in Ipto: the core PROV-O properties, and a unit
/// template that uses them.
pub const PROV_O_SDL: &'static str = "\
enum DataTypes @datatypeRegistry {
    STRING  @datatype(id: 1)
    TIME    @datatype(id: 2)
    INTEGER @datatype(id: 3)
    LONG    @datatype(id: 4)
    DOUBLE  @datatype(id: 5)
    BOOLEAN @datatype(id: 6)
}

enum Attributes @attributeRegistry {
    prov_generatedAtTime   @attribute(datatype: TIME,   array: false, name: \"prov:generatedAtTime\",   uri: \"http://www.w3.org/ns/prov#generatedAtTime\")
    prov_startedAtTime     @attribute(datatype: TIME,   array: false, name: \"prov:startedAtTime\",     uri: \"http://www.w3.org/ns/prov#startedAtTime\")
    prov_endedAtTime       @attribute(datatype: TIME,   array: false, name: \"prov:endedAtTime\",       uri: \"http://www.w3.org/ns/prov#endedAtTime\")
    prov_invalidatedAtTime @attribute(datatype: TIME,   array: false, name: \"prov:invalidatedAtTime\", uri: \"http://www.w3.org/ns/prov#invalidatedAtTime\")
    prov_wasAttributedTo   @attribute(datatype: STRING, array: false, name: \"prov:wasAttributedTo\",   uri: \"http://www.w3.org/ns/prov#wasAttributedTo\")
    prov_value             @attribute(datatype: STRING, array: false, name: \"prov:value\",             uri: \"http://www.w3.org/ns/prov#value\")
    prov_location          @attribute(datatype: STRING, array: false, name: \"prov:location\",          uri: \"http://www.w3.org/ns/prov#location\")
    prov_type              @attribute(datatype: STRING, array: false, name: \"prov:type\",              uri: \"http://www.w3.org/ns/prov#type\")

    rdfs_label             @attribute(datatype: STRING, array: false, name: \"rdfs:label\",             uri: \"http://www.w3.org/2000/01/rdf-schema#label\")
    rdfs_comment           @attribute(datatype: STRING, array: false, name: \"rdfs:comment\",           uri: \"http://www.w3.org/2000/01/rdf-schema#comment\")

    vannak_data_individual @attribute(datatype: STRING, array: false, name: \"vannak:dataIndividualId\")
    vannak_process_instance @attribute(datatype: STRING, array: false, name: \"vannak:processInstanceId\")
    vannak_activity_id     @attribute(datatype: STRING, array: false, name: \"vannak:activityId\")
    vannak_pipeline_id     @attribute(datatype: STRING, array: false, name: \"vannak:pipelineId\")
    vannak_tenant_id       @attribute(datatype: STRING, array: false, name: \"vannak:tenantId\")
    vannak_environment_id  @attribute(datatype: STRING, array: false, name: \"vannak:environmentId\")
}

type ProvEntity @template(name: \"ProvEntity\") {
    label:             String @use(attribute: rdfs_label)
    comment:           String @use(attribute: rdfs_comment)
    generatedAtTime:   String @use(attribute: prov_generatedAtTime)
    invalidatedAtTime: String @use(attribute: prov_invalidatedAtTime)
    wasAttributedTo:   String @use(attribute: prov_wasAttributedTo)
    value:             String @use(attribute: prov_value)
    location:          String @use(attribute: prov_location)
    type:              String @use(attribute: prov_type)
    dataIndividualId:  String @use(attribute: vannak_data_individual)
}
";

/// The status of a unit that is in effect.
pub const UNIT_STATUS_EFFECTIVE: i64 = 30;

/// The number of attributes that the schema defines.
pub const SCHEMA_ATTRIBUTE_COUNT: usize = 16;

/// The names of the attributes that the schema defines.
pub open spec fn schema_attributes() -> Seq<Seq<char>> {
    seq![
        "prov:generatedAtTime"@,
        "prov:startedAtTime"@,
        "prov:endedAtTime"@,
        "prov:invalidatedAtTime"@,
        "prov:wasAttributedTo"@,
        "prov:value"@,
        "prov:location"@,
        "prov:type"@,
        "rdfs:label"@,
        "rdfs:comment"@,
        "vannak:dataIndividualId"@,
        "vannak:processInstanceId"@,
        "vannak:activityId"@,
        "vannak:pipelineId"@,
        "vannak:tenantId"@,
        "vannak:environmentId"@,
    ]
}

/// The name of an attribute that the schema defines.
pub fn schema_attribute(index: usize) -> (r: Option<&'static str>)
    ensures
        match r {
            Some(name) => index < SCHEMA_ATTRIBUTE_COUNT && name@ == schema_attributes()[index as int],
            None => index >= SCHEMA_ATTRIBUTE_COUNT,
        },
{
    match index {
        0 => Some("prov:generatedAtTime"),
        1 => Some("prov:startedAtTime"),
        2 => Some("prov:endedAtTime"),
        3 => Some("prov:invalidatedAtTime"),
        4 => Some("prov:wasAttributedTo"),
        5 => Some("prov:value"),
        6 => Some("prov:location"),
        7 => Some("prov:type"),
        8 => Some("rdfs:label"),
        9 => Some("rdfs:comment"),
        10 => Some("vannak:dataIndividualId"),
        11 => Some("vannak:processInstanceId"),
        12 => Some("vannak:activityId"),
        13 => Some("vannak:pipelineId"),
        14 => Some("vannak:tenantId"),
        15 => Some("vannak:environmentId"),
        _ => None,
    }
}

/// The hash of a byte string behind a seed.
pub open spec fn seeded_hash(bytes: Seq<u8>, seed: u8) -> u64 {
    fnv_fold(fnv_step(FNV_OFFSET, seed), bytes)
}

/// The correlation identifier of an idempotency key: two hashes of it, one behind a seed, in
/// the form of a UUID of version seven.
pub open spec fn corrid(key: Seq<char>) -> Seq<char> {
    let hi = seeded_hash(encode_utf8(key), 1);
    let lo = fnv(encode_utf8(key));
    fixed_hex((hi >> 32) as nat, 8) + "-"@ + fixed_hex(((hi >> 16) & 0xffff) as nat, 4) + "-"@ + fixed_hex(
        (0x7000 | (hi & 0x0fff)) as nat,
        4,
    ) + "-"@ + fixed_hex((0x8000 | ((lo >> 16) & 0x3fff)) as nat, 4) + "-"@ + fixed_hex(
        (lo & 0xffff_ffff) as nat,
        12,
    )
}

/// An attribute of a unit: its number in the repository, and its value.
#[derive(Debug, PartialEq, Eq)]
pub struct UnitAttribute {
    pub attr_id: i64,
    pub value: MetadataValue,
}

/// The view of a unit's attribute.
pub struct UnitAttributeView {
    pub attr_id: i64,
    pub value: MetadataValueView,
}

impl View for UnitAttribute {
    type V = UnitAttributeView;

    open spec fn view(&self) -> UnitAttributeView {
        UnitAttributeView { attr_id: self.attr_id, value: self.value@ }
    }
}

/// What is stored in a repository for one payload.
#[derive(Debug, PartialEq, Eq)]
pub struct IptoUnit {
    pub tenant_id: i64,
    pub corrid: String,
    pub status: i64,
    pub attributes: Vec<UnitAttribute>,
}

/// The view of a unit.
pub struct UnitView {
    pub tenant_id: i64,
    pub corrid: Seq<char>,
    pub status: i64,
    pub attributes: Seq<UnitAttributeView>,
}

impl View for IptoUnit {
    type V = UnitView;

    open spec fn view(&self) -> UnitView {
        UnitView {
            tenant_id: self.tenant_id,
            corrid: self.corrid@,
            status: self.status,
            attributes: views(self.attributes@),
        }
    }
}

/// The attributes of a payload that the repository knows, in the order of their names.
pub open spec fn known_attributes(
    attributes: Map<Seq<char>, MetadataValueView>,
    names: Seq<Seq<char>>,
    ids: Map<Seq<char>, i64>,
) -> Seq<UnitAttributeView>
    decreases names.len(),
{
    if names.len() == 0 {
        Seq::empty()
    } else {
        let before = known_attributes(attributes, names.drop_last(), ids);
        let name = names.last();
        if ids.contains_key(name) {
            before.push(UnitAttributeView { attr_id: ids[name], value: attributes[name] })
        } else {
            before
        }
    }
}

/// The unit of a payload.
pub open spec fn unit_of(p: PayloadView, tenant_id: i64, ids: Map<Seq<char>, i64>) -> UnitView {
    UnitView {
        tenant_id,
        corrid: corrid(p.key),
        status: UNIT_STATUS_EFFECTIVE,
        attributes: known_attributes(p.attributes, attribute_names(p.attributes), ids),
    }
}

/// What is to be done next for a write.
#[derive(Debug, PartialEq, Eq)]
pub enum WriteStep {
    /// Look for a unit with a correlation identifier.
    LookUp { corrid: String },
    /// Store a unit.
    Store { unit: IptoUnit },
    /// Nothing: the payload is in the repository.
    Done,
    /// Nothing: the write has failed.
    Fail { error: IptoWriteError },
}

/// The view of a step.
pub enum StepView {
    LookUp(Seq<char>),
    Store(UnitView),
    Done,
    Fail(WriteErrorView),
}

impl View for WriteStep {
    type V = StepView;

    open spec fn view(&self) -> StepView {
        match self {
            WriteStep::LookUp { corrid } => StepView::LookUp(corrid@),
            WriteStep::Store { unit } => StepView::Store(unit@),
            WriteStep::Done => StepView::Done,
            WriteStep::Fail { error } => StepView::Fail(error@),
        }
    }
}

/// A failure that a later attempt may not meet.
pub open spec fn retryable(what: Seq<char>, cause: Seq<char>) -> WriteErrorView {
    WriteErrorView { message: what + cause, retryable: true }
}

fn retryable_error(what: &str, cause: &str) -> (r: IptoWriteError)
    ensures
        r@ == retryable(what@, cause@),
{
    let mut message = what.to_owned();
    push_text(&mut message, cause);
    IptoWriteError::retryable(message)
}

/// State of a writer for a tenant of an Ipto repository: the numbers of the attributes that
/// the repository knows, and whether the schema has been configured.
#[derive(Debug)]
pub struct IptoRepoWriter {
    tenant_id: i64,
    attr_ids: SortedMap<IptoAttributeName, i64>,
    sdl_configured: bool,
}

/// The view of a writer.
pub struct RepoWriterView {
    pub tenant_id: i64,
    pub attr_ids: Map<Seq<char>, i64>,
    pub sdl_configured: bool,
}

impl View for IptoRepoWriter {
    type V = RepoWriterView;

    closed spec fn view(&self) -> RepoWriterView {
        RepoWriterView {
            tenant_id: self.tenant_id,
            attr_ids: self.attr_ids@,
            sdl_configured: self.sdl_configured,
        }
    }
}

/// The first step of a write: a writer whose schema is not configured refuses it.
pub open spec fn first_step(w: RepoWriterView, p: PayloadView) -> StepView {
    if w.sdl_configured {
        StepView::LookUp(corrid(p.key))
    } else {
        StepView::Fail(
            WriteErrorView {
                message: "IptoRepoWriter: SDL not configured \u{2014} call configure_sdl() first"@,
                retryable: false,
            },
        )
    }
}

/// The step after a unit has been looked for: one that exists is not written again.
pub open spec fn step_after_lookup(w: RepoWriterView, p: PayloadView, found: Result<bool, Seq<char>>) -> StepView {
    match found {
        Err(cause) => StepView::Fail(retryable("corrid lookup failed: "@, cause)),
        Ok(true) => StepView::Done,
        Ok(false) => StepView::Store(unit_of(p, w.tenant_id, w.attr_ids)),
    }
}

/// The step after a unit has been stored.
pub open spec fn step_after_store(stored: Result<(), Seq<char>>) -> StepView {
    match stored {
        Err(cause) => StepView::Fail(retryable("store unit failed: "@, cause)),
        Ok(()) => StepView::Done,
    }
}

/// The view of an outcome whose failure is a text.
pub open spec fn text_outcome<T>(r: Result<T, String>) -> Result<T, Seq<char>> {
    match r {
        Ok(t) => Ok(t),
        Err(text) => Err(text@),
    }
}

impl IptoRepoWriter {
    /// A writer for a tenant, which must exist in the repository.
    pub fn new(tenant_id: i64) -> (r: Self)
        ensures
            r@ == (RepoWriterView { tenant_id, attr_ids: Map::empty(), sdl_configured: false }),
    {
        IptoRepoWriter { tenant_id, attr_ids: SortedMap::new(), sdl_configured: false }
    }

    /// Takes note of the number of an attribute.
    pub fn learn_attribute(&mut self, name: IptoAttributeName, attr_id: i64)
        ensures
            final(self)@ == (RepoWriterView {
                attr_ids: old(self)@.attr_ids.insert(name@, attr_id),
                ..old(self)@
            }),
    {
        let _ = self.attr_ids.insert(name, attr_id);
    }

    /// Configures the writer from what the repository answered: to the schema, and to the
    /// question for the number of each of its attributes, in order. The first failure ends
    /// it; an attribute that the repository does not know is passed over.
    pub fn configure_sdl(&mut self, schema: Result<(), String>, numbers: &Vec<Result<Option<i64>, String>>) -> (r:
        Result<(), IptoWriteError>)
        requires
            numbers.len() == SCHEMA_ATTRIBUTE_COUNT,
        ensures
            match (schema, first_failure(numbers@, 0)) {
                (Err(cause), _) => {
                    &&& r matches Err(e) && e@ == retryable("SDL configuration failed: "@, cause@)
                    &&& final(self)@ == old(self)@
                },
                (Ok(()), Some(i)) => {
                    &&& r matches Err(e) && e@ == retryable("attribute lookup failed: "@, numbers@[i]->Err_0@)
                    &&& final(self)@ == (RepoWriterView {
                        attr_ids: learned(old(self)@.attr_ids, numbers@, i),
                        ..old(self)@
                    })
                },
                (Ok(()), None) => {
                    &&& r is Ok
                    &&& final(self)@ == (RepoWriterView {
                        attr_ids: learned(old(self)@.attr_ids, numbers@, SCHEMA_ATTRIBUTE_COUNT as int),
                        sdl_configured: true,
                        ..old(self)@
                    })
                },
            },
    {
        if let Err(cause) = schema {
            return Err(retryable_error("SDL configuration failed: ", cause.as_str()));
        }
        let ghost before = self@;
        let mut i: usize = 0;
        while i < SCHEMA_ATTRIBUTE_COUNT
            invariant
                i <= SCHEMA_ATTRIBUTE_COUNT,
                numbers.len() == SCHEMA_ATTRIBUTE_COUNT,
                before == old(self)@,
                schema is Ok,
                first_failure(numbers@, 0) == first_failure(numbers@, i as int),
                self@ == (RepoWriterView { attr_ids: learned(before.attr_ids, numbers@, i as int), ..before }),
            decreases SCHEMA_ATTRIBUTE_COUNT - i,
        {
            match &numbers[i] {
                Err(cause) => {
                    return Err(retryable_error("attribute lookup failed: ", cause.as_str()));
                },
                Ok(None) => {},
                Ok(Some(attr_id)) => {
                    if let Some(name) = schema_attribute(i) {
                        self.learn_attribute(IptoAttributeName::from(name), *attr_id);
                    }
                },
            }
            i += 1;
        }
        self.sdl_configured = true;
        Ok(())
    }

    /// The correlation identifier of an idempotency key.
    pub fn corrid_for_key(&self, key: &IdempotencyKey) -> (r: String)
        ensures
            r@ == corrid(key@),
            r@.len() == 36,
    {
        let bytes = key.as_str().as_bytes();
        let hi: u64 = fnv_update((FNV_OFFSET ^ 1).wrapping_mul(FNV_PRIME), bytes);
        let lo: u64 = fnv_update(FNV_OFFSET, bytes);
        let mut out = String::new();
        push_fixed_hex(&mut out, hi >> 32, 8);
        push_text(&mut out, "-");
        push_fixed_hex(&mut out, (hi >> 16) & 0xffff, 4);
        push_text(&mut out, "-");
        push_fixed_hex(&mut out, 0x7000 | (hi & 0x0fff), 4);
        push_text(&mut out, "-");
        push_fixed_hex(&mut out, 0x8000 | ((lo >> 16) & 0x3fff), 4);
        push_text(&mut out, "-");
        push_fixed_hex(&mut out, lo & 0xffff_ffff, 12);
        proof {
            lemma_corrid_len(key@);
            assert(out@ =~= corrid(key@));
        }
        out
    }

    /// The unit of a payload.
    pub fn build_unit_payload(&self, payload: &IptoWritePayload) -> (r: IptoUnit)
        ensures
            r@ == unit_of(payload@, self@.tenant_id, self@.attr_ids),
    {
        let corrid = self.corrid_for_key(&payload.idempotency_key);
        let n: usize = payload.attributes.len();
        let ghost names = attribute_names(payload@.attributes);
        let mut attributes: Vec<UnitAttribute> = Vec::new();
        let mut i: usize = 0;
        assert(views(attributes@) =~= known_attributes(payload@.attributes, names.take(0), self@.attr_ids));
        while i < n
            invariant
                i <= n,
                n == names.len(),
                n == payload.attributes@.dom().len(),
                names == payload.attributes.keys(),
                views(attributes@) == known_attributes(payload@.attributes, names.take(i as int), self@.attr_ids),
            decreases n - i,
        {
            assert(names.take(i + 1).drop_last() =~= names.take(i as int));
            let ghost done = attributes@;
            if let Some(attr_id) = self.attr_ids.get(payload.attributes.key_at(i)) {
                let attribute = UnitAttribute {
                    attr_id: *attr_id,
                    value: payload.attributes.value_at(i).clone(),
                };
                let ghost item = attribute@;
                attributes.push(attribute);
                assert(views(attributes@) =~= views(done).push(item));
            }
            i += 1;
        }
        assert(names.take(n as int) =~= names);
        IptoUnit { tenant_id: self.tenant_id, corrid, status: UNIT_STATUS_EFFECTIVE, attributes }
    }

    /// The first step of a write.
    pub fn begin_write(&self, payload: &IptoWritePayload) -> (r: WriteStep)
        ensures
            r@ == first_step(self@, payload@),
    {
        if !self.sdl_configured {
            return WriteStep::Fail {
                error: IptoWriteError::permanent(
                    "IptoRepoWriter: SDL not configured \u{2014} call configure_sdl() first",
                ),
            };
        }
        WriteStep::LookUp { corrid: self.corrid_for_key(&payload.idempotency_key) }
    }

    /// The step after a unit has been looked for.
    pub fn after_lookup(&self, payload: &IptoWritePayload, found: Result<bool, String>) -> (r: WriteStep)
        ensures
            r@ == step_after_lookup(self@, payload@, text_outcome(found)),
    {
        match found {
            Err(cause) => WriteStep::Fail { error: retryable_error("corrid lookup failed: ", cause.as_str()) },
            Ok(true) => WriteStep::Done,
            Ok(false) => WriteStep::Store { unit: self.build_unit_payload(payload) },
        }
    }

    /// The step after a unit has been stored.
    pub fn after_store(&self, stored: Result<(), String>) -> (r: WriteStep)
        ensures
            r@ == step_after_store(text_outcome(stored)),
    {
        match stored {
            Err(cause) => WriteStep::Fail { error: retryable_error("store unit failed: ", cause.as_str()) },
            Ok(()) => WriteStep::Done,
        }
    }
}

/// The first answer, from a position on, that is a failure.
pub open spec fn first_failure(numbers: Seq<Result<Option<i64>, String>>, from: int) -> Option<int>
    decreases numbers.len() - from,
{
    if from < 0 || from >= numbers.len() {
        None
    } else if numbers[from] is Err {
        Some(from)
    } else {
        first_failure(numbers, from + 1)
    }
}

/// The numbers of attributes after the first answers have been taken note of.
pub open spec fn learned(ids: Map<Seq<char>, i64>, numbers: Seq<Result<Option<i64>, String>>, n: int) -> Map<
    Seq<char>,
    i64,
>
    decreases n,
{
    if n <= 0 {
        ids
    } else {
        match numbers[n - 1] {
            Ok(Some(id)) => learned(ids, numbers, n - 1).insert(schema_attributes()[n - 1], id),
            _ => learned(ids, numbers, n - 1),
        }
    }
}

proof fn lemma_corrid_len(key: Seq<char>)
    ensures
        corrid(key).len() == 36,
{
    let hi = seeded_hash(encode_utf8(key), 1);
    let lo = fnv(encode_utf8(key));
    reveal_strlit("-");
    lemma_fixed_hex_len((hi >> 32) as nat, 8);
    lemma_fixed_hex_len(((hi >> 16) & 0xffff) as nat, 4);
    lemma_fixed_hex_len((0x7000 | (hi & 0x0fff)) as nat, 4);
    lemma_fixed_hex_len((0x8000 | ((lo >> 16) & 0x3fff)) as nat, 4);
    lemma_fixed_hex_len((lo & 0xffff_ffff) as nat, 12);
}

// ---------------------------------------------------------------------------
// Laws
// ---------------------------------------------------------------------------

/// A write is idempotent: where a unit with the correlation identifier of the payload is
/// found, nothing is stored, and the identifier depends on the idempotency key alone.
pub proof fn law_existing_unit_is_not_written_again(w: RepoWriterView, p: PayloadView, q: PayloadView)
    requires
        p.key == q.key,
        w.sdl_configured,
    ensures
        first_step(w, p) == first_step(w, q),
        step_after_lookup(w, p, Ok(true)) == StepView::Done,
        step_after_lookup(w, p, Ok(false)) matches StepView::Store(unit) && first_step(w, p) == StepView::LookUp(
            unit.corrid,
        ),
{
}

/// A seeded hash is the FNV-1a hash of the seed followed by the bytes.
pub proof fn law_seeded_hash(bytes: Seq<u8>, seed: u8)
    ensures
        seeded_hash(bytes, seed) == fnv(seq![seed] + bytes),
{
    crate::hash::lemma_fnv_fold_concat(FNV_OFFSET, seq![seed], bytes);
    reveal_with_fuel(fnv_fold, 2);
    assert(seq![seed].drop_last() =~= Seq::<u8>::empty());
}

/// A correlation identifier has the form of a time-ordered UUID: thirty-six characters with
/// hyphens between groups of eight, four, four, four and twelve hexadecimal digits, of which
/// the third begins with its version.
pub proof fn law_correlation_identifiers(key: Seq<char>)
    ensures
        ({
            let id = corrid(key);
            let hi = fnv(seq![1u8] + encode_utf8(key));
            let lo = fnv(encode_utf8(key));
            &&& id.len() == 36
            &&& id[8] == '-' && id[13] == '-' && id[18] == '-' && id[23] == '-'
            &&& id[14] == '7'
            &&& id.take(8) == fixed_hex((hi / 0x1_0000_0000) as nat, 8)
            &&& id.subrange(9, 13) == fixed_hex(((hi / 0x1_0000) % 0x1_0000) as nat, 4)
            &&& id.subrange(14, 18) == fixed_hex((0x7000 + hi % 0x1000) as nat, 4)
            &&& id.subrange(19, 23) == fixed_hex((0x8000 + (lo / 0x1_0000) % 0x4000) as nat, 4)
            &&& id.skip(24) == fixed_hex((lo % 0x1_0000_0000) as nat, 12)
        }),
{
    let id = corrid(key);
    let hi = seeded_hash(encode_utf8(key), 1);
    let lo = fnv(encode_utf8(key));
    law_seeded_hash(encode_utf8(key), 1);
    reveal_strlit("-");
    assert(hi >> 32 == hi / 0x1_0000_0000) by (bit_vector);
    assert((hi >> 16) & 0xffff == (hi / 0x1_0000) % 0x1_0000) by (bit_vector);
    assert(0x7000 | (hi & 0x0fff) == 0x7000 + hi % 0x1000) by (bit_vector);
    assert(hi % 0x1000 < 0x1000);
    assert(0x8000 | ((lo >> 16) & 0x3fff) == 0x8000 + (lo / 0x1_0000) % 0x4000) by (bit_vector);
    assert(lo & 0xffff_ffff == lo % 0x1_0000_0000) by (bit_vector);
    let a = fixed_hex((hi >> 32) as nat, 8);
    let b = fixed_hex(((hi >> 16) & 0xffff) as nat, 4);
    let c = fixed_hex((0x7000 | (hi & 0x0fff)) as nat, 4);
    let d = fixed_hex((0x8000 | ((lo >> 16) & 0x3fff)) as nat, 4);
    let e = fixed_hex((lo & 0xffff_ffff) as nat, 12);
    crate::text::lemma_fixed_hex_len((hi >> 32) as nat, 8);
    crate::text::lemma_fixed_hex_len(((hi >> 16) & 0xffff) as nat, 4);
    crate::text::lemma_fixed_hex_len((0x7000 | (hi & 0x0fff)) as nat, 4);
    crate::text::lemma_fixed_hex_len((0x8000 | ((lo >> 16) & 0x3fff)) as nat, 4);
    crate::text::lemma_fixed_hex_len((lo & 0xffff_ffff) as nat, 12);
    assert(id.take(8) =~= a);
    assert(id.subrange(9, 13) =~= b);
    assert(id.subrange(14, 18) =~= c);
    assert(id.subrange(19, 23) =~= d);
    assert(id.skip(24) =~= e);
    let n = (0x7000 + hi % 0x1000) as nat;
    assert(c[0] == '7') by {
        reveal_with_fuel(fixed_hex, 5);
        let m = n / 16 / 16 / 16;
        assert(m == 7);
        assert(c[0] == crate::text::hex_char(7));
    }
    assert(id[14] == c[0]);
}

/// A writer without its schema refuses for good; with it, it looks the unit up first. A unit
/// that is there is not written, one that is not is stored for the writer's tenant, as
/// effective, under the identifier that was looked up; what goes wrong on the way may be
/// tried again.
pub proof fn law_units_are_written_once(w: RepoWriterView, p: PayloadView, cause: Seq<char>)
    ensures
        !w.sdl_configured ==> first_step(w, p) is Fail && !first_step(w, p)->Fail_0.retryable,
        w.sdl_configured ==> first_step(w, p) == StepView::LookUp(corrid(p.key)),
        step_after_lookup(w, p, Ok(true)) is Done,
        step_after_lookup(w, p, Ok(false)) matches StepView::Store(unit) && unit.tenant_id == w.tenant_id && unit.corrid
            == corrid(p.key) && unit.status == 30,
        step_after_lookup(w, p, Err(cause)) matches StepView::Fail(e) && e.retryable && e.message
            == "corrid lookup failed: "@ + cause,
        step_after_store(Ok(())) is Done,
        step_after_store(Err(cause)) matches StepView::Fail(e) && e.retryable && e.message == "store unit failed: "@
            + cause,
{
}

/// The attributes of a unit are those of the payload that have a number, in the order of
/// their names, each with its own number and value.
pub proof fn law_known_attributes(
    attributes: Map<Seq<char>, MetadataValueView>,
    names: Seq<Seq<char>>,
    name: Seq<char>,
    ids: Map<Seq<char>, i64>,
)
    ensures
        known_attributes(attributes, Seq::empty(), ids).len() == 0,
        ids.contains_key(name) ==> known_attributes(attributes, names.push(name), ids) == known_attributes(
            attributes,
            names,
            ids,
        ).push(UnitAttributeView { attr_id: ids[name], value: attributes[name] }),
        !ids.contains_key(name) ==> known_attributes(attributes, names.push(name), ids) == known_attributes(
            attributes,
            names,
            ids,
        ),
{
    assert(names.push(name).drop_last() =~= names);
}

} // verus!
