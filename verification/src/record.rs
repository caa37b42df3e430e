//! The DNS record snapshot as the provider reports it.

use vstd::prelude::*;

use crate::addr::{AddressFamily, IpAddrExt, IpAddress};
use crate::parse::{parse_ip, spec_parse_ip};
use crate::text::str_eq;

verus! {

/// Mathematical image of a [`DNSRecord`]: every text field as a character
/// sequence.
pub struct RecordView {
    pub id: Seq<char>,
    pub name: Seq<char>,
    pub typ: Seq<char>,
    pub content: Seq<char>,
    pub ttl: Option<u32>,
    pub prio: Option<u32>,
    pub notes: Option<Seq<char>>,
}

/// A single DNS record, an immutable snapshot taken once per run.
#[derive(Debug)]
pub struct DNSRecord {
    /// Provider-assigned identifier of the record.
    pub id: String,
    /// Fully qualified name the record answers for.
    pub name: String,
    /// Record type tag: `"A"`, `"AAAA"`, `"CNAME"`, `"ALIAS"`, ...
    pub typ: String,
    /// The record's value; for `A`/`AAAA` records, an address in text form.
    pub content: String,
    pub ttl: Option<u32>,
    pub prio: Option<u32>,
    pub notes: Option<String>,
}

/// Why a record's content field does not yield the address it should.
#[derive(Clone, Copy, PartialEq, Eq, Structural, Debug)]
pub enum IpParseError {
    /// The record is not an `A` or `AAAA` record in the first place.
    NotAddressRecord,
    /// The content is not an IP address of either family.
    Malformed,
    /// The content is a fine address of the wrong family for the record's
    /// declared type.
    WrongFamily,
}

/// The address behind a record's content, or why there is none: only
/// `A`/`AAAA` records carry one, the content must parse, and the parsed
/// family must agree with the record's declared type.
pub open spec fn spec_try_parse_ip(r: RecordView) -> Result<IpAddress, IpParseError> {
    if r.typ != AddressFamily::IPv4.spec_dns_type() && r.typ
        != AddressFamily::IPv6.spec_dns_type() {
        Err(IpParseError::NotAddressRecord)
    } else {
        match spec_parse_ip(r.content) {
            None => Err(IpParseError::Malformed),
            Some(a) => if a.spec_dns_type() != r.typ {
                Err(IpParseError::WrongFamily)
            } else {
                Ok(a)
            },
        }
    }
}

impl DNSRecord {
    /// The IP address in this record's content field.
    ///
    /// Fails when this is not an `A`/`AAAA` record, when the content does
    /// not parse as an address, or when the address's family does not
    /// match the record's declared type.
    pub fn try_parse_ip(&self) -> (r: Result<IpAddress, IpParseError>)
        ensures
            r == spec_try_parse_ip(self@),
    {
        let is_a = str_eq(self.typ.as_str(), "A");
        let is_aaaa = str_eq(self.typ.as_str(), "AAAA");
        proof {
            reveal_strlit("A");
            reveal_strlit("AAAA");
            assert("A"@ =~= seq!['A']);
            assert("AAAA"@ =~= seq!['A', 'A', 'A', 'A']);
        }
        if !is_a && !is_aaaa {
            return Err(IpParseError::NotAddressRecord);
        }
        match parse_ip(self.content.as_str()) {
            None => Err(IpParseError::Malformed),
            Some(a) => match a {
                IpAddress::V4(_) => if is_a {
                    Ok(a)
                } else {
                    Err(IpParseError::WrongFamily)
                },
                IpAddress::V6(_) => if is_aaaa {
                    Ok(a)
                } else {
                    Err(IpParseError::WrongFamily)
                },
            },
        }
    }
}

/// The views of a record list, index for index.
pub open spec fn recs_views(rs: Seq<DNSRecord>) -> Seq<RecordView> {
    Seq::new(rs.len(), |i: int| rs[i]@)
}

impl View for DNSRecord {
    type V = RecordView;

    open spec fn view(&self) -> RecordView {
        RecordView {
            id: self.id@,
            name: self.name@,
            typ: self.typ@,
            content: self.content@,
            ttl: self.ttl,
            prio: self.prio,
            notes: match self.notes {
                Some(ref s) => Some(s@),
                None => None,
            },
        }
    }
}

} // verus!
