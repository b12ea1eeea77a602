//! The data that a scan produces for one domain and the row that is kept of
//! it.

use vstd::prelude::*;

verus! {

/// The mathematical content of a scan result or of a stored row: text as
/// sequences of characters, numbers as integers.
pub struct RecordView {
    pub domain: Seq<char>,
    pub ip_addr: Option<Seq<char>>,
    pub port: Option<int>,
    pub success: bool,
    pub date: Option<Seq<char>>,
    pub status: Option<int>,
    pub resulting_url: Option<Seq<char>>,
    pub server: Option<Seq<char>>,
    pub content_security_policy: Option<Seq<char>>,
    pub content_type: Option<Seq<char>>,
    pub body: Option<Seq<char>>,
}

/// The characters of an optional string.
pub open spec fn text_view(o: Option<String>) -> Option<Seq<char>> {
    match o {
        Some(s) => Some(s@),
        None => None,
    }
}

/// The row of a domain that gave no response: the domain, the flag cleared
/// and nothing else.
pub open spec fn failure_view(domain: Seq<char>) -> RecordView {
    RecordView {
        domain,
        ip_addr: None,
        port: None,
        success: false,
        date: None,
        status: None,
        resulting_url: None,
        server: None,
        content_security_policy: None,
        content_type: None,
        body: None,
    }
}

/// The signed 16-bit integer with the bit pattern of the unsigned 16-bit
/// integer `v`.
pub open spec fn as_smallint(v: int) -> int {
    if v < 0x8000 {
        v
    } else {
        v - 0x1_0000
    }
}

/// Reinterprets an unsigned 16-bit integer as a signed one, as a 16-bit
/// column receives it.
pub fn smallint_of(v: u16) -> (r: i16)
    ensures
        r as int == as_smallint(v as int),
{
    if v < 0x8000 {
        v as i16
    } else {
        i16::MIN + ((v - 0x8000) as i16)
    }
}

/// What probing one domain gave when a response was obtained.
#[derive(Clone, Debug, PartialEq, Eq)]
pub struct ResponseData {
    pub domain: String,
    pub ip_addr: Option<String>,
    pub port: Option<u16>,
    pub success: bool,
    pub date: Option<String>,
    pub status: Option<i16>,
    pub resulting_url: Option<String>,
    pub server: Option<String>,
    pub content_security_policy: Option<String>,
    pub content_type: Option<String>,
    pub body: Option<String>,
}

impl View for ResponseData {
    type V = RecordView;

    open spec fn view(&self) -> RecordView {
        RecordView {
            domain: self.domain@,
            ip_addr: text_view(self.ip_addr),
            port: match self.port {
                Some(p) => Some(p as int),
                None => None,
            },
            success: self.success,
            date: text_view(self.date),
            status: match self.status {
                Some(c) => Some(c as int),
                None => None,
            },
            resulting_url: text_view(self.resulting_url),
            server: text_view(self.server),
            content_security_policy: text_view(self.content_security_policy),
            content_type: text_view(self.content_type),
            body: text_view(self.body),
        }
    }
}

/// One row of the table of results, keyed by its domain. The port is held as
/// the 16-bit column holds it.
#[derive(Clone, Debug, PartialEq, Eq)]
pub struct StoredRecord {
    pub domain: String,
    pub ip_addr: Option<String>,
    pub port: Option<i16>,
    pub success: bool,
    pub date: Option<String>,
    pub status: Option<i16>,
    pub resulting_url: Option<String>,
    pub server: Option<String>,
    pub content_security_policy: Option<String>,
    pub content_type: Option<String>,
    pub body: Option<String>,
}

impl View for StoredRecord {
    type V = RecordView;

    open spec fn view(&self) -> RecordView {
        RecordView {
            domain: self.domain@,
            ip_addr: text_view(self.ip_addr),
            port: match self.port {
                Some(p) => Some(p as int),
                None => None,
            },
            success: self.success,
            date: text_view(self.date),
            status: match self.status {
                Some(c) => Some(c as int),
                None => None,
            },
            resulting_url: text_view(self.resulting_url),
            server: text_view(self.server),
            content_security_policy: text_view(self.content_security_policy),
            content_type: text_view(self.content_type),
            body: text_view(self.body),
        }
    }
}

/// The row that a result is stored as: the result itself, under the domain
/// it was claimed by, with the port as the 16-bit column holds it.
pub open spec fn row_of(domain: Seq<char>, data: RecordView) -> RecordView {
    RecordView {
        domain,
        port: match data.port {
            Some(p) => Some(as_smallint(p)),
            None => None,
        },
        ..data
    }
}

/// Which of the two insert statements carries a row.
#[derive(Clone, Copy, Debug, PartialEq, Eq, Structural)]
pub enum InsertKind {
    /// Every column is given as a parameter.
    Full,
    /// Only the domain is given; the flag is cleared and the other columns
    /// stay empty.
    Minimal,
}

/// A row together with the statement that inserts it.
#[derive(Clone, Debug, PartialEq, Eq)]
pub struct InsertRequest {
    pub kind: InsertKind,
    pub record: StoredRecord,
}

/// The request that stores what probing `domain` gave: the full row where a
/// response was obtained, the minimal row where none was.
pub fn insert_request(domain: String, data: Option<ResponseData>) -> (req: InsertRequest)
    ensures
        data is Some ==> req.kind == InsertKind::Full && req.record@ == row_of(
            domain@,
            data->0@,
        ),
        data is None ==> req.kind == InsertKind::Minimal && req.record@ == failure_view(domain@),
{
    match data {
        Some(s) => {
            let port = match s.port {
                Some(p) => Some(smallint_of(p)),
                None => None,
            };
            InsertRequest {
                kind: InsertKind::Full,
                record: StoredRecord {
                    domain,
                    ip_addr: s.ip_addr,
                    port,
                    success: s.success,
                    date: s.date,
                    status: s.status,
                    resulting_url: s.resulting_url,
                    server: s.server,
                    content_security_policy: s.content_security_policy,
                    content_type: s.content_type,
                    body: s.body,
                },
            }
        },
        None => InsertRequest {
            kind: InsertKind::Minimal,
            record: StoredRecord {
                domain,
                ip_addr: None,
                port: None,
                success: false,
                date: None,
                status: None,
                resulting_url: None,
                server: None,
                content_security_policy: None,
                content_type: None,
                body: None,
            },
        },
    }
}

} // verus!
