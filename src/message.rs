use vstd::prelude::*;

verus! {

/// The address of a remote peer: an IPv4 or IPv6 address (IPv4 in the low
/// 32 bits) and a port.
#[derive(Clone, Copy, Debug, PartialEq, Eq, Structural)]
pub struct PeerAddr {
    pub ip: u128,
    pub port: u16,
    pub is_v6: bool,
}

/// A transaction id: 96 bits, held in the low bits of a `u128`.
pub type TransactionId = u128;

/// One more than the largest transaction id.
pub const TID_LIMIT: u128 = 0x1_0000_0000_0000_0000_0000_0000;

pub open spec fn valid_tid(tid: u128) -> bool {
    tid < TID_LIMIT
}

/// The message classes: request, indication, success response, error response.
#[derive(Clone, Copy, Debug, PartialEq, Eq, Structural)]
pub enum Class {
    Request,
    Indication,
    Response,
    Error,
}

/// A typed-length-value attribute.
#[derive(Debug)]
pub struct Tlv {
    pub attribute_type: u16,
    pub value: Vec<u8>,
}

impl View for Tlv {
    type V = (u16, Seq<u8>);

    open spec fn view(&self) -> (u16, Seq<u8>) {
        (self.attribute_type, self.value@)
    }
}

/// The mathematical content of a list of attributes.
pub open spec fn tlvs_view(v: Seq<Tlv>) -> Seq<(u16, Seq<u8>)> {
    v.map_values(|t: Tlv| t@)
}

impl Tlv {
    /// A copy of this attribute.
    pub fn duplicate(&self) -> (r: Tlv)
        ensures
            r@ == self@,
    {
        Tlv { attribute_type: self.attribute_type, value: self.value.clone() }
    }
}

/// A copy of a list of attributes, in the same order.
pub fn duplicate_tlvs(v: &Vec<Tlv>) -> (r: Vec<Tlv>)
    ensures
        tlvs_view(r@) == tlvs_view(v@),
{
    let mut r: Vec<Tlv> = Vec::new();
    let mut i: usize = 0;
    while i < v.len()
        invariant
            i <= v.len(),
            r.len() == i,
            forall|j: int| 0 <= j < i ==> (#[trigger] r@[j])@ == v@[j]@,
        decreases v.len() - i,
    {
        r.push(v[i].duplicate());
        i = i + 1;
    }
    assert(tlvs_view(r@) =~= tlvs_view(v@));
    r
}

impl Clone for Tlv {
    fn clone(&self) -> (r: Tlv)
        ensures
            r@ == self@,
    {
        self.duplicate()
    }
}

impl PartialEq for Tlv {
    fn eq(&self, o: &Tlv) -> (r: bool) {
        if self.attribute_type != o.attribute_type || self.value.len() != o.value.len() {
            return false;
        }
        let mut i: usize = 0;
        while i < self.value.len()
            invariant
                i <= self.value.len(),
                self.value.len() == o.value.len(),
                self.attribute_type == o.attribute_type,
                forall|j: int| 0 <= j < i ==> self.value@[j] == o.value@[j],
            decreases self.value.len() - i,
        {
            if self.value[i] != o.value[i] {
                return false;
            }
            i = i + 1;
        }
        assert(self.value@ =~= o.value@);
        true
    }
}

impl vstd::std_specs::cmp::PartialEqSpecImpl for Tlv {
    open spec fn obeys_eq_spec() -> bool {
        true
    }

    open spec fn eq_spec(&self, o: &Tlv) -> bool {
        self@ == o@
    }
}

/// A sample attribute: type 0x8022 carrying the ASCII bytes of "Ugh!".
pub fn attribute() -> (r: Tlv)
    ensures
        r@ == (0x8022u16, seq![0x55u8, 0x67u8, 0x68u8, 0x21u8]),
{
    Tlv { attribute_type: 0x8022, value: vec![0x55, 0x67, 0x68, 0x21] }
}

/// The fixed part of a message.
#[derive(Clone, Copy, Debug, PartialEq, Eq, Structural)]
pub struct Header {
    pub class: Class,
    pub method: u16,
    pub transaction_id: TransactionId,
}

/// A message: a header and an ordered list of attributes.
#[derive(Debug)]
pub struct Message {
    pub header: Header,
    pub attributes: Vec<Tlv>,
}

impl Message {
    pub fn new(class: Class, method: u16, transaction_id: TransactionId, attributes: Vec<Tlv>) -> (r: Message)
        ensures
            r.header == (Header { class, method, transaction_id }),
            r.attributes == attributes,
    {
        Message { header: Header { class, method, transaction_id }, attributes }
    }

    pub fn request(method: u16, transaction_id: TransactionId, attributes: Vec<Tlv>) -> (r: Message)
        ensures
            r.header == (Header { class: Class::Request, method, transaction_id }),
            r.attributes == attributes,
    {
        Message::new(Class::Request, method, transaction_id, attributes)
    }

    pub fn indication(method: u16, transaction_id: TransactionId, attributes: Vec<Tlv>) -> (r: Message)
        ensures
            r.header == (Header { class: Class::Indication, method, transaction_id }),
            r.attributes == attributes,
    {
        Message::new(Class::Indication, method, transaction_id, attributes)
    }

    pub fn response(method: u16, transaction_id: TransactionId, attributes: Vec<Tlv>) -> (r: Message)
        ensures
            r.header == (Header { class: Class::Response, method, transaction_id }),
            r.attributes == attributes,
    {
        Message::new(Class::Response, method, transaction_id, attributes)
    }

    pub fn error(method: u16, transaction_id: TransactionId, attributes: Vec<Tlv>) -> (r: Message)
        ensures
            r.header == (Header { class: Class::Error, method, transaction_id }),
            r.attributes == attributes,
    {
        Message::new(Class::Error, method, transaction_id, attributes)
    }
}

/// A reply to a request: success or error class, with its attributes.
#[derive(Debug)]
pub enum Response {
    Success(Vec<Tlv>),
    Error(Vec<Tlv>),
}

/// Why a request did not get a reply.
#[derive(Debug, Clone, Copy, PartialEq, Eq, Structural)]
pub enum TransactionError {
    Timeout,
    MethodMismatch { request_method: u16, response_method: u16 },
    ChannelClosed,
}

/// A message without reply semantics, to or from a peer.
#[derive(Debug)]
pub struct Indication {
    pub farend_addr: PeerAddr,
    pub method: u16,
    pub attributes: Vec<Tlv>,
}

} // verus!
