//! The reflexive-binding messages: a binding request and the parse of the
//! response, whose XOR-MAPPED-ADDRESS attribute gives the public endpoint.

use crate::buffer::{be16, be32, buffer_to_vec, new_buffer, put_slice, put_u16, put_u32};
use crate::cli::Versions;
use crate::endpoint::{Endpoint, IpAddress};
use crate::masp::message::{be32_value, u32_from_be, u32_to_be};
use vstd::prelude::*;
use vstd::slice::{slice_subrange, slice_to_vec};

verus! {

pub const BINDING_REQUEST: u16 = 0x0001;

pub const MAGIC_COOKIE: u32 = 0x2112A442;

pub const XOR_MAPPED_ADDRESS: u16 = 0x0020;

/// Type, length, magic cookie and transaction ID.
pub const STUN_HEADER_LEN: usize = 20;

/// Relies on `rand::random`: twelve bytes from the thread's random number
/// generator. Nothing is promised of their values.
#[verifier::external_body]
fn random_transaction_id() -> (r: [u8; 12]) {
    rand::random::<[u8; 12]>()
}

/// Why a response is refused.
#[derive(Debug, Clone, Copy, PartialEq, Eq, Structural)]
pub enum StunError {
    /// Shorter than its header, or than the attribute length it announces.
    TooShort,
    /// The magic cookie is not 0x2112A442.
    BadMagicCookie,
    /// An attribute runs past the end of the message.
    TruncatedAttribute,
    /// An XOR-MAPPED-ADDRESS whose family is neither IPv4 nor IPv6.
    UnknownAddressFamily,
}

#[derive(Debug)]
pub enum StunAttribute {
    XorMappedAddress(Endpoint),
    /// An attribute that is not parsed: its type and value.
    Unknown(u16, Vec<u8>),
}

pub enum StunAttributeModel {
    XorMappedAddress(Endpoint),
    Unknown(u16, Seq<u8>),
}

impl View for StunAttribute {
    type V = StunAttributeModel;

    open spec fn view(&self) -> StunAttributeModel {
        match self {
            StunAttribute::XorMappedAddress(e) => StunAttributeModel::XorMappedAddress(*e),
            StunAttribute::Unknown(t, v) => StunAttributeModel::Unknown(*t, v@),
        }
    }
}

#[derive(Debug)]
pub struct StunMessage {
    pub message_type: u16,
    pub transaction_id: [u8; 12],
    pub attributes: Vec<StunAttribute>,
}

pub struct StunMessageModel {
    pub message_type: u16,
    pub transaction_id: Seq<u8>,
    pub attributes: Seq<StunAttributeModel>,
}

impl View for StunMessage {
    type V = StunMessageModel;

    open spec fn view(&self) -> StunMessageModel {
        StunMessageModel {
            message_type: self.message_type,
            transaction_id: self.transaction_id@,
            attributes: self.attributes@.map_values(|a: StunAttribute| a@),
        }
    }
}

/// The big-endian number that two bytes spell.
pub open spec fn be16_value(b: Seq<u8>) -> u16 {
    (((b[0] as u16) << 8u16) | (b[1] as u16)) as u16
}

/// The big-endian number that a sequence of bytes spells.
pub open spec fn be_uint(b: Seq<u8>) -> nat
    decreases b.len(),
{
    if b.len() == 0 {
        0
    } else {
        be_uint(b.drop_last()) * 256 + b.last() as nat
    }
}

/// Byte-wise exclusive or of `a` with the first bytes of `k`.
pub open spec fn xor_bytes(a: Seq<u8>, k: Seq<u8>) -> Seq<u8> {
    Seq::new(a.len(), |i: int| a[i] ^ k[i])
}

/// The port and address that an XOR-MAPPED-ADDRESS value holds: the port is
/// XORed with the cookie's high half; an IPv4 address with the cookie; an
/// IPv6 address with the cookie followed by the transaction ID.
pub open spec fn spec_xor_mapped_address(v: Seq<u8>, tid: Seq<u8>) -> Result<Endpoint, StunError> {
    if v.len() < 4 {
        Err(StunError::TruncatedAttribute)
    } else {
        let port = be16_value(v.subrange(2, 4)) ^ 0x2112u16;
        if v[1] == 1 {
            if v.len() < 8 {
                Err(StunError::TruncatedAttribute)
            } else {
                Ok(
                    Endpoint {
                        ip: IpAddress::V4(be32_value(v.subrange(4, 8)) ^ MAGIC_COOKIE),
                        port,
                    },
                )
            }
        } else if v[1] == 2 {
            if v.len() < 20 {
                Err(StunError::TruncatedAttribute)
            } else {
                Ok(
                    Endpoint {
                        ip: IpAddress::V6(
                            be_uint(xor_bytes(v.subrange(4, 20), be32(MAGIC_COOKIE) + tid)) as u128,
                        ),
                        port,
                    },
                )
            }
        } else {
            Err(StunError::UnknownAddressFamily)
        }
    }
}

/// One attribute from its type and value.
pub open spec fn spec_attribute(t: u16, v: Seq<u8>, tid: Seq<u8>) -> Result<
    StunAttributeModel,
    StunError,
> {
    if t == XOR_MAPPED_ADDRESS {
        match spec_xor_mapped_address(v, tid) {
            Ok(e) => Ok(StunAttributeModel::XorMappedAddress(e)),
            Err(e) => Err(e),
        }
    } else {
        Ok(StunAttributeModel::Unknown(t, v))
    }
}

/// The attributes of a message body: each is a two-byte type, a two-byte
/// length and that many bytes of value.
pub open spec fn spec_attributes(b: Seq<u8>, tid: Seq<u8>) -> Result<
    Seq<StunAttributeModel>,
    StunError,
>
    decreases b.len(),
{
    if b.len() == 0 {
        Ok(seq![])
    } else if b.len() < 4 {
        Err(StunError::TruncatedAttribute)
    } else {
        let n = be16_value(b.subrange(2, 4)) as int;
        if b.len() < 4 + n {
            Err(StunError::TruncatedAttribute)
        } else {
            match spec_attribute(be16_value(b.subrange(0, 2)), b.subrange(4, 4 + n), tid) {
                Err(e) => Err(e),
                Ok(a) => match spec_attributes(b.skip(4 + n), tid) {
                    Err(e) => Err(e),
                    Ok(rest) => Ok(seq![a] + rest),
                },
            }
        }
    }
}

/// What a response parses to.
pub open spec fn spec_stun_parse(b: Seq<u8>) -> Result<StunMessageModel, StunError> {
    if b.len() < 20 {
        Err(StunError::TooShort)
    } else if be32_value(b.subrange(4, 8)) != MAGIC_COOKIE {
        Err(StunError::BadMagicCookie)
    } else {
        let n = be16_value(b.subrange(2, 4)) as int;
        if b.len() < 20 + n {
            Err(StunError::TooShort)
        } else {
            match spec_attributes(b.subrange(20, 20 + n), b.subrange(8, 20)) {
                Err(e) => Err(e),
                Ok(attributes) => Ok(
                    StunMessageModel {
                        message_type: be16_value(b.subrange(0, 2)),
                        transaction_id: b.subrange(8, 20),
                        attributes,
                    },
                ),
            }
        }
    }
}

/// The abstract result of a parse.
pub open spec fn stun_result_view(r: Result<StunMessage, StunError>) -> Result<
    StunMessageModel,
    StunError,
> {
    match r {
        Ok(m) => Ok(m@),
        Err(e) => Err(e),
    }
}

/// The header of a message without attributes.
pub open spec fn spec_stun_bytes(message_type: u16, tid: Seq<u8>) -> Seq<u8> {
    be16(message_type) + be16(0) + be32(MAGIC_COOKIE) + tid
}

/// Prepends `a` to a parse result.
pub open spec fn prepend_attributes(
    a: Seq<StunAttributeModel>,
    r: Result<Seq<StunAttributeModel>, StunError>,
) -> Result<Seq<StunAttributeModel>, StunError> {
    match r {
        Ok(rest) => Ok(a + rest),
        Err(e) => Err(e),
    }
}

/// The big-endian number that two bytes spell.
pub fn u16_from_be(b0: u8, b1: u8) -> (r: u16)
    ensures
        r == be16_value(seq![b0, b1]),
{
    ((b0 as u16) << 8u16) | (b1 as u16)
}

/// Parses an XOR-MAPPED-ADDRESS value with the message's transaction ID.
fn parse_xor_mapped_address(buf: &[u8], transaction_id: &[u8; 12]) -> (r: Result<
    Endpoint,
    StunError,
>)
    ensures
        r == spec_xor_mapped_address(buf@, transaction_id@),
{
    if buf.len() < 4 {
        return Err(StunError::TruncatedAttribute);
    }
    let family = buf[1];
    let xport = u16_from_be(buf[2], buf[3]);
    assert(buf@.subrange(2, 4) =~= seq![buf@[2], buf@[3]]);
    let port = xport ^ 0x2112u16;
    if family == 1 {
        if buf.len() < 8 {
            return Err(StunError::TruncatedAttribute);
        }
        let xip = u32_from_be(buf[4], buf[5], buf[6], buf[7]);
        assert(buf@.subrange(4, 8) =~= seq![buf@[4], buf@[5], buf@[6], buf@[7]]);
        Ok(Endpoint { ip: IpAddress::V4(xip ^ MAGIC_COOKIE), port })
    } else if family == 2 {
        if buf.len() < 20 {
            return Err(StunError::TruncatedAttribute);
        }
        let cookie = u32_to_be(MAGIC_COOKIE);
        let ghost key = be32(MAGIC_COOKIE) + transaction_id@;
        let ghost x = xor_bytes(buf@.subrange(4, 20), key);
        let mut ip: u128 = 0;
        let mut i: usize = 0;
        while i < 16
            invariant
                0 <= i <= 16,
                buf@.len() >= 20,
                cookie@ == be32(MAGIC_COOKIE),
                key == be32(MAGIC_COOKIE) + transaction_id@,
                x == xor_bytes(buf@.subrange(4, 20), key),
                ip as nat == be_uint(x.take(i as int)),
                be_uint(x.take(i as int)) < pow256(i as nat),
            decreases 16 - i,
        {
            let k = if i < 4 {
                cookie[i]
            } else {
                transaction_id[i - 4]
            };
            let byte = buf[4 + i] ^ k;
            proof {
                assert(key[i as int] == k);
                assert(x[i as int] == byte);
                let t = x.take(i + 1);
                assert(t.drop_last() =~= x.take(i as int));
                assert(t.last() == byte);
                lemma_pow256_step(i as nat);
                assert(be_uint(x.take(i as int)) * 256 + byte < pow256((i + 1) as nat)) by (
                nonlinear_arith)
                    requires
                        be_uint(x.take(i as int)) < pow256(i as nat),
                        byte < 256,
                        pow256((i + 1) as nat) == pow256(i as nat) * 256,
                ;
                lemma_pow256_16_bound(i as nat);
            }
            ip = ip * 256 + byte as u128;
            i = i + 1;
        }
        assert(x.take(16) =~= x);
        Ok(Endpoint { ip: IpAddress::V6(ip), port })
    } else {
        Err(StunError::UnknownAddressFamily)
    }
}

/// 256 to the power `n`.
pub open spec fn pow256(n: nat) -> nat
    decreases n,
{
    if n == 0 {
        1
    } else {
        pow256((n - 1) as nat) * 256
    }
}

proof fn lemma_pow256_step(n: nat)
    ensures
        pow256(n + 1) == pow256(n) * 256,
{
}

proof fn lemma_pow256_16_bound(n: nat)
    requires
        n < 16,
    ensures
        pow256(n + 1) <= 0x1_0000_0000_0000_0000_0000_0000_0000_0000,
        pow256(n) * 256 <= 0x1_0000_0000_0000_0000_0000_0000_0000_0000,
    decreases 16 - n,
{
    reveal_with_fuel(pow256, 17);
    if n < 15 {
        lemma_pow256_16_bound(n + 1);
        assert(pow256(n + 1) <= pow256(n + 2)) by {
            lemma_pow256_step(n + 1);
        }
    }
}

impl StunMessage {
    /// A binding request with a random transaction ID and no attributes.
    pub fn new() -> (r: StunMessage)
        ensures
            r.message_type == BINDING_REQUEST,
            r.attributes@.len() == 0,
    {
        let transaction_id = random_transaction_id();
        StunMessage { message_type: BINDING_REQUEST, transaction_id, attributes: Vec::new() }
    }

    /// Type, zero length, magic cookie and transaction ID; attributes are
    /// not written.
    pub fn to_bytes(&self) -> (r: Vec<u8>)
        ensures
            r@ == spec_stun_bytes(self.message_type, self.transaction_id@),
    {
        let mut buf = new_buffer(STUN_HEADER_LEN);
        put_u16(&mut buf, self.message_type);
        put_u16(&mut buf, 0);
        put_u32(&mut buf, MAGIC_COOKIE);
        put_slice(&mut buf, self.transaction_id.as_slice());
        let r = buffer_to_vec(&buf);
        assert(r@ =~= spec_stun_bytes(self.message_type, self.transaction_id@));
        r
    }

    /// Parses a response: header, magic cookie, then the attributes that the
    /// header's length covers.
    pub fn from_bytes(buf: &[u8]) -> (r: Result<StunMessage, StunError>)
        ensures
            stun_result_view(r) == spec_stun_parse(buf@),
    {
        if buf.len() < STUN_HEADER_LEN {
            return Err(StunError::TooShort);
        }
        let message_type = u16_from_be(buf[0], buf[1]);
        assert(buf@.subrange(0, 2) =~= seq![buf@[0], buf@[1]]);
        let message_length = u16_from_be(buf[2], buf[3]);
        assert(buf@.subrange(2, 4) =~= seq![buf@[2], buf@[3]]);
        let magic_cookie = u32_from_be(buf[4], buf[5], buf[6], buf[7]);
        assert(buf@.subrange(4, 8) =~= seq![buf@[4], buf@[5], buf@[6], buf@[7]]);
        if magic_cookie != MAGIC_COOKIE {
            return Err(StunError::BadMagicCookie);
        }
        let mut transaction_id = [0u8; 12];
        let mut i: usize = 0;
        while i < 12
            invariant
                0 <= i <= 12,
                buf@.len() >= 20,
                forall|j: int| 0 <= j < i ==> transaction_id@[j] == buf@[8 + j],
            decreases 12 - i,
        {
            transaction_id[i] = buf[8 + i];
            i = i + 1;
        }
        assert(transaction_id@ =~= buf@.subrange(8, 20));
        let end = STUN_HEADER_LEN + message_length as usize;
        if buf.len() < end {
            return Err(StunError::TooShort);
        }
        let body = slice_subrange(buf, STUN_HEADER_LEN, end);
        let attributes = match parse_attributes(body, &transaction_id) {
            Ok(a) => a,
            Err(e) => {
                return Err(e);
            },
        };
        Ok(StunMessage { message_type, transaction_id, attributes })
    }
}

/// Parses the attributes of a message body.
fn parse_attributes(body: &[u8], transaction_id: &[u8; 12]) -> (r: Result<
    Vec<StunAttribute>,
    StunError,
>)
    ensures
        match r {
            Ok(v) => spec_attributes(body@, transaction_id@) == Ok::<
                Seq<StunAttributeModel>,
                StunError,
            >(v@.map_values(|a: StunAttribute| a@)),
            Err(e) => spec_attributes(body@, transaction_id@) == Err::<
                Seq<StunAttributeModel>,
                StunError,
            >(e),
        },
{
    let ghost tid = transaction_id@;
    let n = body.len();
    let mut attributes: Vec<StunAttribute> = Vec::new();
    let mut pos: usize = 0;
    assert(body@.skip(0) =~= body@);
    assert(attributes@.map_values(|a: StunAttribute| a@) =~= Seq::<StunAttributeModel>::empty());
    assert(prepend_attributes(Seq::<StunAttributeModel>::empty(), spec_attributes(body@, tid))
        =~= spec_attributes(body@, tid)) by {
        match spec_attributes(body@, tid) {
            Ok(rest) => {
                assert(Seq::<StunAttributeModel>::empty() + rest =~= rest);
            },
            Err(_) => {},
        }
    }
    while pos < n
        invariant
            n == body@.len(),
            pos <= n,
            tid == transaction_id@,
            spec_attributes(body@, tid) == prepend_attributes(
                attributes@.map_values(|a: StunAttribute| a@),
                spec_attributes(body@.skip(pos as int), tid),
            ),
        decreases n - pos,
    {
        let ghost rest = body@.skip(pos as int);
        if n - pos < 4 {
            return Err(StunError::TruncatedAttribute);
        }
        let attr_type = u16_from_be(body[pos], body[pos + 1]);
        let attr_length = u16_from_be(body[pos + 2], body[pos + 3]);
        assert(rest.subrange(0, 2) =~= seq![body@[pos as int], body@[pos + 1]]);
        assert(rest.subrange(2, 4) =~= seq![body@[pos + 2], body@[pos + 3]]);
        if n - pos - 4 < attr_length as usize {
            return Err(StunError::TruncatedAttribute);
        }
        let value_end = pos + 4 + attr_length as usize;
        let value = slice_subrange(body, pos + 4, value_end);
        assert(value@ =~= rest.subrange(4, 4 + attr_length as int));
        let attribute = if attr_type == XOR_MAPPED_ADDRESS {
            match parse_xor_mapped_address(value, transaction_id) {
                Ok(e) => StunAttribute::XorMappedAddress(e),
                Err(e) => {
                    return Err(e);
                },
            }
        } else {
            StunAttribute::Unknown(attr_type, slice_to_vec(value))
        };
        let ghost before = attributes@.map_values(|a: StunAttribute| a@);
        attributes.push(attribute);
        proof {
            assert(rest.skip(4 + attr_length as int) =~= body@.skip(value_end as int));
            assert(attributes@.map_values(|a: StunAttribute| a@) =~= before + seq![attribute@]);
            match spec_attributes(body@.skip(value_end as int), tid) {
                Ok(tail) => {
                    assert(before + (seq![attribute@] + tail) =~= (before + seq![attribute@])
                        + tail);
                },
                Err(_) => {},
            }
        }
        pos = value_end;
    }
    proof {
        assert(body@.skip(pos as int) =~= Seq::<u8>::empty());
        assert(attributes@.map_values(|a: StunAttribute| a@) + Seq::<StunAttributeModel>::empty()
            =~= attributes@.map_values(|a: StunAttribute| a@));
    }
    Ok(attributes)
}

/// The transaction ID matches and the first attribute is an
/// XOR-MAPPED-ADDRESS: the public endpoint.
pub fn public_endpoint(request: &StunMessage, response: &StunMessage) -> (r: Option<Endpoint>)
    ensures
        r matches Some(e) ==> request.transaction_id@ == response.transaction_id@
            && response.attributes@.len() > 0
            && response.attributes@[0]@ == StunAttributeModel::XorMappedAddress(e),
        r is None ==> request.transaction_id@ != response.transaction_id@
            || response.attributes@.len() == 0
            || response.attributes@[0]@ is Unknown,
{
    let mut i: usize = 0;
    while i < 12
        invariant
            0 <= i <= 12,
            forall|j: int| 0 <= j < i ==> request.transaction_id@[j] == response.transaction_id@[j],
        decreases 12 - i,
    {
        if request.transaction_id[i] != response.transaction_id[i] {
            return None;
        }
        i = i + 1;
    }
    assert(request.transaction_id@ =~= response.transaction_id@);
    if response.attributes.len() == 0 {
        return None;
    }
    match &response.attributes[0] {
        StunAttribute::XorMappedAddress(e) => Some(*e),
        StunAttribute::Unknown(_, _) => None,
    }
}

/// Whether an endpoint is of the IP version asked for.
pub open spec fn is_of_version(e: Endpoint, version: Versions) -> bool {
    match version {
        Versions::V4 => e.ip is V4,
        Versions::V6 => e.ip is V6,
    }
}

/// The binding server to ask: the first resolved address of the preferred
/// IP version, or the first address when none is of that version.
pub fn choose_server(addrs: &Vec<Endpoint>, version: Versions) -> (r: Option<Endpoint>)
    ensures
        addrs@.len() == 0 ==> r is None,
        addrs@.len() > 0 ==> r is Some,
        r matches Some(e) ==> {
            ||| exists|i: int|
                0 <= i < addrs@.len() && addrs@[i] == e && is_of_version(e, version) && forall|
                    j: int,
                | 0 <= j < i ==> !is_of_version(#[trigger] addrs@[j], version)
            ||| (addrs@[0] == e && forall|j: int|
                0 <= j < addrs@.len() ==> !is_of_version(#[trigger] addrs@[j], version))
        },
{
    let mut i: usize = 0;
    while i < addrs.len()
        invariant
            0 <= i <= addrs@.len(),
            forall|j: int| 0 <= j < i ==> !is_of_version(#[trigger] addrs@[j], version),
        decreases addrs@.len() - i,
    {
        let e = addrs[i];
        let wanted = match version {
            Versions::V4 => match e.ip {
                IpAddress::V4(_) => true,
                IpAddress::V6(_) => false,
            },
            Versions::V6 => match e.ip {
                IpAddress::V4(_) => false,
                IpAddress::V6(_) => true,
            },
        };
        if wanted {
            return Some(e);
        }
        i = i + 1;
    }
    if addrs.len() == 0 {
        None
    } else {
        Some(addrs[0])
    }
}

} // verus!
