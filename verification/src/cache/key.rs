//! Cache action-key construction.
use vstd::prelude::*;

use crate::bstr;
use crate::digest;
use crate::framing;
use crate::hex;

verus! {

/// The version of the format that `ActionKeyBuilder` hashes.
pub const ACTION_KEY_VERSION: u8 = 1;

const NAME_TAG: u8 = 0x01;

const VALUE_TAG: u8 = 0x02;

/// A BLAKE3 action key.
#[derive(Clone, Copy, Debug, PartialEq, Eq, PartialOrd, Ord, Hash)]
pub struct ActionKey {
    pub bytes: [u8; 32],
}

impl View for ActionKey {
    type V = Seq<u8>;

    open spec fn view(&self) -> Seq<u8> {
        self.bytes@
    }
}

/// Why a key cannot be read or made.
#[derive(Clone, Copy, Debug, PartialEq, Eq, Structural)]
pub enum KeyError {
    InvalidHex,
    EmptyName,
}

impl KeyError {
    /// The message of the error.
    pub fn message(&self) -> (text: &'static str)
        ensures
            text@ == match *self {
                KeyError::InvalidHex => "action key must contain 64 hexadecimal characters"@,
                KeyError::EmptyName => "action key field names must not be empty"@,
            },
    {
        match self {
            KeyError::InvalidHex => "action key must contain 64 hexadecimal characters",
            KeyError::EmptyName => "action key field names must not be empty",
        }
    }
}

/// The key that a text of 64 hexadecimal digits, of either case, stands for.
pub open spec fn key_of(text: Seq<u8>) -> Option<Seq<u8>> {
    if text.len() == 64 {
        hex::decoded(text, true)
    } else {
        None
    }
}

impl ActionKey {
    /// The key with the given bytes.
    pub fn from_bytes(bytes: [u8; 32]) -> (key: Self)
        ensures
            key@ == bytes@,
    {
        ActionKey { bytes }
    }

    /// The bytes of the key.
    pub fn as_bytes(&self) -> (bytes: &[u8; 32])
        ensures
            bytes@ == self@,
    {
        &self.bytes
    }

    /// The key in lower-case hexadecimal.
    pub fn to_hex(self) -> (text: String)
        ensures
            text@ == hex::hex_text(self@),
    {
        hex::encode(self.bytes.as_slice())
    }

    /// Reads a key from hexadecimal text.
    pub fn parse(value: &str) -> (outcome: Result<Self, KeyError>)
        ensures
            match outcome {
                Ok(key) => key_of(bstr::utf8(value@)) == Some(key@),
                Err(error) => error is InvalidHex && key_of(bstr::utf8(value@)) is None,
            },
    {
        match hex::decode_32(bstr::of(value), true) {
            Some(bytes) => Ok(ActionKey { bytes }),
            None => Err(KeyError::InvalidHex),
        }
    }

    /// Two keys are equal.
    pub fn same(&self, other: &ActionKey) -> (equal: bool)
        ensures
            equal == (self@ == other@),
    {
        digest::same(&self.bytes, &other.bytes)
    }
}

/// A named field of a key.
#[derive(Clone, Debug, PartialEq, Eq)]
pub struct KeyField<B = Vec<u8>> {
    pub name: B,
    pub value: B,
}

impl View for KeyField {
    type V = KeyField<Seq<u8>>;

    open spec fn view(&self) -> KeyField<Seq<u8>> {
        KeyField { name: self.name@, value: self.value@ }
    }
}

/// The contents of a list of fields.
pub open spec fn field_views(fields: Seq<KeyField>) -> Seq<KeyField<Seq<u8>>> {
    fields.map_values(|field: KeyField| field@)
}

/// The contents of a list grow by the contents of the item that is pushed.
pub broadcast proof fn lemma_field_views_push(fields: Seq<KeyField>, field: KeyField)
    ensures
        #[trigger] field_views(fields.push(field)) == field_views(fields).push(field@),
{
    assert(field_views(fields.push(field)) =~= field_views(fields).push(field@));
}

/// Constructs an action key from length-framed named fields.
///
/// Fields are hashed in insertion order, so repeated arguments and search paths keep the order
/// that the compiler sees.
#[derive(Clone, Debug, Default)]
pub struct ActionKeyBuilder {
    pub fields: Vec<KeyField>,
}

impl View for ActionKeyBuilder {
    type V = Seq<KeyField<Seq<u8>>>;

    open spec fn view(&self) -> Seq<KeyField<Seq<u8>>> {
        field_views(self.fields@)
    }
}

/// The frames of the fields of a key.
pub open spec fn framed(fields: Seq<KeyField<Seq<u8>>>) -> Seq<u8>
    decreases fields.len(),
{
    if fields.len() == 0 {
        Seq::empty()
    } else {
        framing::tagged(0x01, fields[0].name) + (framing::tagged(0x02, fields[0].value) + framed(
            fields.skip(1),
        ))
    }
}

/// What is hashed for a key: the domain, the format version and the frames of the fields.
pub open spec fn preimage(fields: Seq<KeyField<Seq<u8>>>) -> Seq<u8> {
    bstr::utf8("fcache.action-key\0"@).push(ACTION_KEY_VERSION) + framed(fields)
}

/// Some field has no name.
pub open spec fn has_empty_name(fields: Seq<KeyField<Seq<u8>>>) -> bool {
    exists|at: int| 0 <= at < fields.len() && (#[trigger] fields[at]).name.len() == 0
}

impl ActionKeyBuilder {
    /// A builder without fields.
    pub fn new() -> (builder: Self)
        ensures
            builder@ == Seq::<KeyField<Seq<u8>>>::empty(),
    {
        let builder = ActionKeyBuilder { fields: Vec::new() };
        assert(builder@ =~= Seq::empty());
        builder
    }

    /// The builder with one more field.
    pub fn field(self, name: &[u8], value: &[u8]) -> (builder: Self)
        ensures
            builder@ == self@.push(KeyField { name: name@, value: value@ }),
    {
        let mut builder = self;
        builder.add_field(name, value);
        builder
    }

    /// Adds a field.
    pub fn add_field(&mut self, name: &[u8], value: &[u8])
        ensures
            final(self)@ == old(self)@.push(KeyField { name: name@, value: value@ }),
    {
        let field = KeyField { name: bstr::copy(name), value: bstr::copy(value) };
        proof {
            lemma_field_views_push(self.fields@, field);
        }
        self.fields.push(field);
    }

    /// The builder with one more field, named by a text.
    pub fn bytes(self, name: &str, value: &[u8]) -> (builder: Self)
        ensures
            builder@ == self@.push(KeyField { name: bstr::utf8(name@), value: value@ }),
    {
        self.field(bstr::of(name), value)
    }

    /// Adds a field named by a text.
    pub fn add_bytes(&mut self, name: &str, value: &[u8])
        ensures
            final(self)@ == old(self)@.push(KeyField { name: bstr::utf8(name@), value: value@ }),
    {
        self.add_field(bstr::of(name), value);
    }

    /// The builder with one more field that holds an operating-system string.
    pub fn os_str(self, name: &str, value: &[u8]) -> (builder: Self)
        ensures
            builder@ == self@.push(KeyField { name: bstr::utf8(name@), value: value@ }),
    {
        self.field(bstr::of(name), value)
    }

    /// Adds a field that holds an operating-system string.
    pub fn add_os_str(&mut self, name: &str, value: &[u8])
        ensures
            final(self)@ == old(self)@.push(KeyField { name: bstr::utf8(name@), value: value@ }),
    {
        self.add_field(bstr::of(name), value);
    }

    /// The builder with one more field that holds a path.
    pub fn path(self, name: &str, value: &[u8]) -> (builder: Self)
        ensures
            builder@ == self@.push(KeyField { name: bstr::utf8(name@), value: value@ }),
    {
        self.field(bstr::of(name), value)
    }

    /// Adds a field that holds a path.
    pub fn add_path(&mut self, name: &str, value: &[u8])
        ensures
            final(self)@ == old(self)@.push(KeyField { name: bstr::utf8(name@), value: value@ }),
    {
        self.add_field(bstr::of(name), value);
    }

    fn serialized(&self) -> (bytes: Vec<u8>)
        ensures
            bytes@ == preimage(self@),
    {
        let mut bytes = bstr::from_str("fcache.action-key\0");
        bytes.push(ACTION_KEY_VERSION);
        let ghost all = self@;
        let ghost whole = bytes@ + framed(all);
        let mut index: usize = 0;
        assert(all.skip(0) =~= all);
        while index < self.fields.len()
            invariant
                index <= self.fields.len(),
                all == self@,
                bytes@ + framed(all.skip(index as int)) == whole,
            decreases self.fields.len() - index,
        {
            let ghost rest = all.skip(index as int);
            let ghost before = bytes@;
            assert(rest[0] == self.fields@[index as int]@);
            assert(rest.skip(1) =~= all.skip(index + 1));
            framing::push_tagged(&mut bytes, NAME_TAG, self.fields[index].name.as_slice());
            framing::push_tagged(&mut bytes, VALUE_TAG, self.fields[index].value.as_slice());
            assert(bytes@ + framed(all.skip(index + 1)) =~= before + framed(rest));
            index += 1;
        }
        assert(all.skip(index as int) =~= Seq::empty());
        assert(bytes@ =~= whole);
        bytes
    }

    /// The key of the fields.
    pub fn finish(self) -> (outcome: Result<ActionKey, KeyError>)
        ensures
            match outcome {
                Ok(key) => !has_empty_name(self@) && key@ == digest::blake3_digest(preimage(self@)),
                Err(error) => error is EmptyName && has_empty_name(self@),
            },
    {
        let ghost all = self@;
        let mut index: usize = 0;
        while index < self.fields.len()
            invariant
                index <= self.fields.len(),
                all == self@,
                forall|at: int| 0 <= at < index ==> (#[trigger] all[at]).name.len() > 0,
            decreases self.fields.len() - index,
        {
            assert(all[index as int] == self.fields@[index as int]@);
            if self.fields[index].name.len() == 0 {
                return Err(KeyError::EmptyName);
            }
            index += 1;
        }
        let bytes = self.serialized();
        Ok(ActionKey { bytes: digest::hash(bytes.as_slice()) })
    }

    /// The key of the fields.
    pub fn build(self) -> (outcome: Result<ActionKey, KeyError>)
        ensures
            match outcome {
                Ok(key) => !has_empty_name(self@) && key@ == digest::blake3_digest(preimage(self@)),
                Err(error) => error is EmptyName && has_empty_name(self@),
            },
    {
        self.finish()
    }
}

/// The lengths of the names and values of fields fit their frames.
pub open spec fn fields_fit(fields: Seq<KeyField<Seq<u8>>>) -> bool {
    forall|at: int|
        0 <= at < fields.len() ==> framing::fits((#[trigger] fields[at]).name) && framing::fits(
            fields[at].value,
        )
}

proof fn lemma_framed_injective(
    left: Seq<KeyField<Seq<u8>>>,
    right: Seq<KeyField<Seq<u8>>>,
)
    requires
        fields_fit(left),
        fields_fit(right),
        framed(left) == framed(right),
    ensures
        left == right,
    decreases left.len(),
{
    if left.len() == 0 {
        if right.len() > 0 {
            assert(framed(right).len() >= 9);
        }
        assert(left =~= right);
    } else if right.len() == 0 {
        assert(framed(left).len() >= 9);
    } else {
        framing::lemma_tagged_prefix(
            0x01,
            left[0].name,
            framing::tagged(0x02, left[0].value) + framed(left.skip(1)),
            0x01,
            right[0].name,
            framing::tagged(0x02, right[0].value) + framed(right.skip(1)),
        );
        framing::lemma_tagged_prefix(
            0x02,
            left[0].value,
            framed(left.skip(1)),
            0x02,
            right[0].value,
            framed(right.skip(1)),
        );
        assert forall|at: int| 0 <= at < left.skip(1).len() implies framing::fits(
            (#[trigger] left.skip(1)[at]).name,
        ) && framing::fits(left.skip(1)[at].value) by {
            assert(left.skip(1)[at] == left[at + 1]);
        }
        assert forall|at: int| 0 <= at < right.skip(1).len() implies framing::fits(
            (#[trigger] right.skip(1)[at]).name,
        ) && framing::fits(right.skip(1)[at].value) by {
            assert(right.skip(1)[at] == right[at + 1]);
        }
        lemma_framed_injective(left.skip(1), right.skip(1));
        assert(left =~= seq![left[0]] + left.skip(1));
        assert(right =~= seq![right[0]] + right.skip(1));
    }
}

/// Framing prevents collisions: different lists of fields, in names, values or order, are hashed as
/// different bytes.
pub proof fn law_framing_prevents_collisions(
    left: Seq<KeyField<Seq<u8>>>,
    right: Seq<KeyField<Seq<u8>>>,
)
    requires
        fields_fit(left),
        fields_fit(right),
        preimage(left) == preimage(right),
    ensures
        left == right,
{
    let lead = bstr::utf8("fcache.action-key\0"@).push(ACTION_KEY_VERSION);
    assert(preimage(left).skip(lead.len() as int) =~= framed(left));
    assert(preimage(right).skip(lead.len() as int) =~= framed(right));
    lemma_framed_injective(left, right);
}

/// A key that is written in hexadecimal reads back as it was.
pub proof fn law_key_text_round_trip(key: Seq<u8>)
    requires
        key.len() == 32,
    ensures
        key_of(bstr::utf8(hex::hex_text(key))) == Some(key),
{
    hex::law_hex_round_trip(key, true);
    hex::lemma_hex_bytes(key);
}

} // verus!
