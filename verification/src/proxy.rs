use vstd::prelude::*;

use crate::acl;
use crate::store::DataOutput;
use crate::store::StoreError;

verus! {

/// What the proxy asks its deployer for: where the storage engine lives.
#[derive(Debug, PartialEq, Eq)]
pub struct InstantiateMsg {
    pub storage_address: String,
    pub storage_codehash: String,
}

/// The proxy's answer to a value query: the decoded value, or nothing when
/// the key is absent.
#[derive(Clone, Copy, Debug, PartialEq, Eq, Structural)]
pub enum QueryAnswer {
    Value(Option<u32>),
}

/// The access policy a client asks for when it stores a value: readable by
/// anyone, by the owner alone, or by the owner and one named account.
#[derive(Debug, PartialEq, Eq)]
pub enum Authz {
    PUBLIC,
    PRIVATE,
    PROTECTED(String),
}

/// The version tag of the one defined payload format: a big-endian unsigned
/// 32-bit integer in exactly four bytes.
pub open spec fn version_plain() -> Seq<char> {
    seq!['1']
}

/// The integer a four-byte big-endian payload stands for.
pub open spec fn be32_value(b: Seq<u8>) -> int
    recommends
        b.len() == 4,
{
    b[0] * 0x100_0000 + b[1] * 0x1_0000 + b[2] * 0x100 + b[3]
}

/// The canonical four-byte big-endian payload of a value.
pub open spec fn be32_bytes(value: u32) -> Seq<u8> {
    seq![
        (value / 0x100_0000) as u8,
        ((value / 0x1_0000) % 0x100) as u8,
        ((value / 0x100) % 0x100) as u8,
        (value % 0x100) as u8,
    ]
}

/// Decoding the canonical payload of a value gives the value back.
pub proof fn lemma_codec_round_trip(value: u32)
    ensures
        be32_bytes(value).len() == 4,
        be32_value(be32_bytes(value)) == value,
{
    let b = be32_bytes(value);
    assert(value / 0x100_0000 < 0x100);
    assert(b[0] == value / 0x100_0000);
    assert(b[1] == (value / 0x1_0000) % 0x100);
    assert(b[2] == (value / 0x100) % 0x100);
    assert(b[3] == value % 0x100);
    assert(b[0] * 0x100_0000 + b[1] * 0x1_0000 + b[2] * 0x100 + b[3] == value);
}

/// Encode a typed value into the versioned wire payload: the `"1"` version
/// tag and the value's four big-endian bytes.
pub fn format_data(value: u32) -> (r: (String, Vec<u8>))
    ensures
        r.0@ == version_plain(),
        r.1@ == be32_bytes(value),
{
    let version = "1".to_owned();
    proof {
        reveal_strlit("1");
        assert(version@ =~= version_plain());
    }
    let mut data: Vec<u8> = Vec::new();
    let b0: u8 = (value / 0x100_0000) as u8;
    let b1: u8 = ((value / 0x1_0000) % 0x100) as u8;
    let b2: u8 = ((value / 0x100) % 0x100) as u8;
    let b3: u8 = (value % 0x100) as u8;
    data.push(b0);
    data.push(b1);
    data.push(b2);
    data.push(b3);
    proof {
        assert(data@ =~= be32_bytes(value));
    }
    (version, data)
}

/// Decode a stored record's payload: only the `"1"` format is defined, and
/// it is exactly four bytes; anything else fails closed with
/// `UnknownFormat`, never with a guessed value.
pub fn parse_data(out: &DataOutput) -> (r: Result<u32, StoreError>)
    ensures
        match r {
            Ok(v) => out@.version == version_plain() && out@.data.len() == 4 && v as int
                == be32_value(out@.data),
            Err(e) => e == StoreError::UnknownFormat && (out@.version != version_plain()
                || out@.data.len() != 4),
        },
{
    let tag = "1".to_owned();
    proof {
        reveal_strlit("1");
        assert(tag@ =~= version_plain());
    }
    if out.version != tag {
        return Err(StoreError::UnknownFormat);
    }
    if out.data.len() != 4 {
        return Err(StoreError::UnknownFormat);
    }
    let v: u32 = (out.data[0] as u32) * 0x100_0000 + (out.data[1] as u32) * 0x1_0000 + (out.data[2]
        as u32) * 0x100 + (out.data[3] as u32);
    Ok(v)
}

/// The storage-side ACL a client's requested policy stands for. The owner
/// field is left empty: the storage engine replaces it with the creating
/// principal's attested identity at create time.
pub fn to_storage_authz(authz: &Authz) -> (r: acl::Authz)
    ensures
        r@.owner == Seq::<char>::empty(),
        match authz {
            Authz::PUBLIC => r@.everyone_read && r@.readers == Seq::<Seq<char>>::empty(),
            Authz::PRIVATE => !r@.everyone_read && r@.readers == Seq::<Seq<char>>::empty(),
            Authz::PROTECTED(u) => !r@.everyone_read && r@.readers == seq![u@],
        },
{
    proof {
        reveal_strlit("");
        assert(""@ =~= Seq::<char>::empty());
    }
    match authz {
        Authz::PUBLIC => acl::Authz::new("", true),
        Authz::PRIVATE => acl::Authz::new("", false),
        Authz::PROTECTED(u) => {
            let r = acl::Authz::new("", false).update(u.as_str(), true);
            proof {
                assert(r@.readers =~= seq![u@]);
            }
            r
        },
    }
}

/// Interpret the storage engine's answer to a read: an absent record is an
/// empty value, a present one must decode under the versioned payload codec.
pub fn interpret_answer(answer: Option<DataOutput>) -> (r: Result<QueryAnswer, StoreError>)
    ensures
        match answer {
            None => r == Ok::<QueryAnswer, StoreError>(QueryAnswer::Value(None)),
            Some(out) => match r {
                Ok(q) => q matches QueryAnswer::Value(Some(v)) && out@.version == version_plain()
                    && out@.data.len() == 4 && v as int == be32_value(out@.data),
                Err(e) => e == StoreError::UnknownFormat && (out@.version != version_plain()
                    || out@.data.len() != 4),
            },
        },
{
    match answer {
        None => Ok(QueryAnswer::Value(None)),
        Some(out) => {
            let v = parse_data(&out)?;
            Ok(QueryAnswer::Value(Some(v)))
        },
    }
}

} // verus!
