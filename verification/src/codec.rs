use vstd::prelude::*;

use crate::json::{Json, lemma_obj_get_found, obj_get, obj_get_ref, str_eq};
use crate::messages::{
    CertificateAndKey, CertificateAndKeyV, HttpFront, HttpFrontV, HttpProxyConfiguration,
    HttpProxyConfigurationV, Instance, InstanceV, Order, OrderV, TcpFront, TcpFrontV, TlsFront,
    TlsFrontV, TlsProxyConfiguration, TlsProxyConfigurationV, view_opt_bytes, view_opt_str,
    views_of_strings,
};

verus! {

// ---------------------------------------------------------------------------
// The control-channel codec: an order is carried as a JSON object
// `{"type": TAG, "data": PAYLOAD}`; the three stop/status orders have
// no payload.  The tag-to-variant mapping lives here and nowhere else,
// so that encoding and decoding stay inverses.
// ---------------------------------------------------------------------------

/// Why a JSON value was refused as an order.
#[derive(Debug, PartialEq, Eq, Structural, Clone, Copy)]
pub enum DecodeError {
    /// The text is not JSON the codec can read.
    InvalidJson,
    /// The top level is not an object.
    NotAnObject,
    /// The object has no `type` field.
    MissingType,
    /// The order's tag needs a `data` field and none is there.
    MissingData,
    /// The tag is none of the known order tags.
    UnknownType,
    /// The payload does not have the shape the tag asks for.
    InvalidData,
}

// ---------------------------------------------------------------------------
// Field access, spec side.
// ---------------------------------------------------------------------------

pub open spec fn spec_get_str(e: Seq<(String, Json)>, key: Seq<char>) -> Option<Seq<char>> {
    match obj_get(e, key) {
        Some(Json::Str(s)) => Some(s@),
        _ => None,
    }
}

pub open spec fn spec_get_u64(e: Seq<(String, Json)>, key: Seq<char>) -> Option<u64> {
    match obj_get(e, key) {
        Some(Json::UInt(v)) => Some(v),
        _ => None,
    }
}

pub open spec fn spec_get_u16(e: Seq<(String, Json)>, key: Seq<char>) -> Option<u16> {
    match spec_get_u64(e, key) {
        Some(v) => if v <= u16::MAX as u64 {
            Some(v as u16)
        } else {
            None
        },
        None => None,
    }
}

pub open spec fn spec_get_usize(e: Seq<(String, Json)>, key: Seq<char>) -> Option<usize> {
    match spec_get_u64(e, key) {
        Some(v) => if v <= usize::MAX as u64 {
            Some(v as usize)
        } else {
            None
        },
        None => None,
    }
}

/// An optional string field: absent or `null` is an honest `None`; the
/// outer `None` means the field is there with the wrong shape.
pub open spec fn spec_get_opt_str(e: Seq<(String, Json)>, key: Seq<char>) -> Option<
    Option<Seq<char>>,
> {
    match obj_get(e, key) {
        None => Some(None),
        Some(Json::Null) => Some(None),
        Some(Json::Str(s)) => Some(Some(s@)),
        Some(_) => None,
    }
}

pub open spec fn all_bytes(items: Seq<Json>) -> bool {
    forall|i: int| 0 <= i < items.len() ==> (#[trigger] items[i] matches Json::UInt(v) && v <= 255)
}

pub open spec fn bytes_of(items: Seq<Json>) -> Seq<u8> {
    Seq::new(
        items.len(),
        |i: int|
            match items[i] {
                Json::UInt(v) => v as u8,
                _ => 0u8,
            },
    )
}

pub open spec fn spec_arr_bytes(d: Json) -> Option<Seq<u8>> {
    match d {
        Json::Arr(items) => if all_bytes(items@) {
            Some(bytes_of(items@))
        } else {
            None
        },
        _ => None,
    }
}

pub open spec fn spec_get_bytes(e: Seq<(String, Json)>, key: Seq<char>) -> Option<Seq<u8>> {
    match obj_get(e, key) {
        Some(d) => spec_arr_bytes(d),
        None => None,
    }
}

pub open spec fn spec_get_opt_bytes(e: Seq<(String, Json)>, key: Seq<char>) -> Option<
    Option<Seq<u8>>,
> {
    match obj_get(e, key) {
        None => Some(None),
        Some(Json::Null) => Some(None),
        Some(d) => match spec_arr_bytes(d) {
            Some(b) => Some(Some(b)),
            None => None,
        },
    }
}

pub open spec fn all_strs(items: Seq<Json>) -> bool {
    forall|i: int| 0 <= i < items.len() ==> (#[trigger] items[i] matches Json::Str(_))
}

pub open spec fn strs_of(items: Seq<Json>) -> Seq<Seq<char>> {
    Seq::new(
        items.len(),
        |i: int|
            match items[i] {
                Json::Str(s) => s@,
                _ => Seq::<char>::empty(),
            },
    )
}

pub open spec fn spec_get_strs(e: Seq<(String, Json)>, key: Seq<char>) -> Option<Seq<Seq<char>>> {
    match obj_get(e, key) {
        Some(Json::Arr(items)) => if all_strs(items@) {
            Some(strs_of(items@))
        } else {
            None
        },
        _ => None,
    }
}

// ---------------------------------------------------------------------------
// Field access, exec side.
// ---------------------------------------------------------------------------

fn get_str(entries: &Vec<(String, Json)>, key: &str) -> (r: Option<String>)
    ensures
        match r {
            Some(s) => spec_get_str(entries@, key@) == Some(s@),
            None => spec_get_str(entries@, key@) is None,
        },
{
    match obj_get_ref(entries, key) {
        Some(Json::Str(s)) => Some(s.clone()),
        _ => None,
    }
}

fn get_u64(entries: &Vec<(String, Json)>, key: &str) -> (r: Option<u64>)
    ensures
        r == spec_get_u64(entries@, key@),
{
    match obj_get_ref(entries, key) {
        Some(Json::UInt(v)) => Some(*v),
        _ => None,
    }
}

fn get_u16(entries: &Vec<(String, Json)>, key: &str) -> (r: Option<u16>)
    ensures
        r == spec_get_u16(entries@, key@),
{
    match get_u64(entries, key) {
        Some(v) => if v <= u16::MAX as u64 {
            Some(v as u16)
        } else {
            None
        },
        None => None,
    }
}

fn get_usize(entries: &Vec<(String, Json)>, key: &str) -> (r: Option<usize>)
    ensures
        r == spec_get_usize(entries@, key@),
{
    match get_u64(entries, key) {
        Some(v) => if v <= usize::MAX as u64 {
            Some(v as usize)
        } else {
            None
        },
        None => None,
    }
}

fn get_opt_str(entries: &Vec<(String, Json)>, key: &str) -> (r: Option<Option<String>>)
    ensures
        match r {
            Some(o) => spec_get_opt_str(entries@, key@) == Some(view_opt_str(o)),
            None => spec_get_opt_str(entries@, key@) is None,
        },
{
    match obj_get_ref(entries, key) {
        None => Some(None),
        Some(Json::Null) => Some(None),
        Some(Json::Str(s)) => Some(Some(s.clone())),
        Some(_) => None,
    }
}

#[verifier::loop_isolation(false)]
fn arr_bytes(d: &Json) -> (r: Option<Vec<u8>>)
    ensures
        match r {
            Some(b) => spec_arr_bytes(*d) == Some(b@),
            None => spec_arr_bytes(*d) is None,
        },
{
    match d {
        Json::Arr(items) => {
            let mut out: Vec<u8> = Vec::new();
            let mut i: usize = 0;
            while i < items.len()
                invariant
                    0 <= i <= items.len(),
                    out@.len() == i,
                    forall|m: int|
                        0 <= m < i ==> (#[trigger] items@[m] matches Json::UInt(v) && v <= 255),
                    forall|m: int| 0 <= m < i ==> out@[m] == bytes_of(items@)[m],
                decreases items.len() - i,
            {
                match &items[i] {
                    Json::UInt(v) => {
                        if *v <= 255 {
                            out.push(*v as u8);
                        } else {
                            proof {
                                assert(!(items@[i as int] matches Json::UInt(v) && v <= 255));
                            }
                            return None;
                        }
                    },
                    _ => {
                        proof {
                            assert(!(items@[i as int] matches Json::UInt(v) && v <= 255));
                        }
                        return None;
                    },
                }
                i = i + 1;
            }
            proof {
                assert(out@ =~= bytes_of(items@));
            }
            Some(out)
        },
        _ => None,
    }
}

fn get_bytes(entries: &Vec<(String, Json)>, key: &str) -> (r: Option<Vec<u8>>)
    ensures
        match r {
            Some(b) => spec_get_bytes(entries@, key@) == Some(b@),
            None => spec_get_bytes(entries@, key@) is None,
        },
{
    match obj_get_ref(entries, key) {
        Some(d) => arr_bytes(d),
        None => None,
    }
}

fn get_opt_bytes(entries: &Vec<(String, Json)>, key: &str) -> (r: Option<Option<Vec<u8>>>)
    ensures
        match r {
            Some(o) => spec_get_opt_bytes(entries@, key@) == Some(view_opt_bytes(o)),
            None => spec_get_opt_bytes(entries@, key@) is None,
        },
{
    match obj_get_ref(entries, key) {
        None => Some(None),
        Some(Json::Null) => Some(None),
        Some(d) => match arr_bytes(d) {
            Some(b) => Some(Some(b)),
            None => None,
        },
    }
}

#[verifier::loop_isolation(false)]
fn get_strs(entries: &Vec<(String, Json)>, key: &str) -> (r: Option<Vec<String>>)
    ensures
        match r {
            Some(ss) => spec_get_strs(entries@, key@) == Some(views_of_strings(ss@)),
            None => spec_get_strs(entries@, key@) is None,
        },
{
    match obj_get_ref(entries, key) {
        Some(Json::Arr(items)) => {
            let mut out: Vec<String> = Vec::new();
            let mut i: usize = 0;
            while i < items.len()
                invariant
                    0 <= i <= items.len(),
                    out@.len() == i,
                    forall|m: int| 0 <= m < i ==> (#[trigger] items@[m] matches Json::Str(_)),
                    forall|m: int| 0 <= m < i ==> out@[m]@ == strs_of(items@)[m],
                decreases items.len() - i,
            {
                match &items[i] {
                    Json::Str(s) => {
                        out.push(s.clone());
                    },
                    _ => {
                        proof {
                            assert(!(items@[i as int] matches Json::Str(_)));
                        }
                        return None;
                    },
                }
                i = i + 1;
            }
            proof {
                assert(views_of_strings(out@) =~= strs_of(items@));
            }
            Some(out)
        },
        _ => None,
    }
}

// ---------------------------------------------------------------------------
// Payload decoders.  Unknown extra fields are ignored, as a tolerant
// reader should.
// ---------------------------------------------------------------------------

pub open spec fn spec_decode_http_front(d: Json) -> Option<HttpFrontV> {
    match d {
        Json::Obj(entries) => {
            let e = entries@;
            match (
                spec_get_str(e, "app_id"@),
                spec_get_str(e, "hostname"@),
                spec_get_str(e, "path_begin"@),
            ) {
                (Some(a), Some(h), Some(p)) => Some(
                    HttpFrontV { app_id: a, hostname: h, path_begin: p },
                ),
                _ => None,
            }
        },
        _ => None,
    }
}

pub fn decode_http_front(d: &Json) -> (r: Option<HttpFront>)
    ensures
        match r {
            Some(f) => spec_decode_http_front(*d) == Some(f@),
            None => spec_decode_http_front(*d) is None,
        },
{
    match d {
        Json::Obj(entries) => {
            match (
                get_str(entries, "app_id"),
                get_str(entries, "hostname"),
                get_str(entries, "path_begin"),
            ) {
                (Some(a), Some(h), Some(p)) => Some(
                    HttpFront { app_id: a, hostname: h, path_begin: p },
                ),
                _ => None,
            }
        },
        _ => None,
    }
}

pub open spec fn spec_decode_tls_front(d: Json) -> Option<TlsFrontV> {
    match d {
        Json::Obj(entries) => {
            let e = entries@;
            match (
                spec_get_str(e, "app_id"@),
                spec_get_str(e, "hostname"@),
                spec_get_str(e, "path_begin"@),
                spec_get_bytes(e, "fingerprint"@),
            ) {
                (Some(a), Some(h), Some(p), Some(fp)) => Some(
                    TlsFrontV { app_id: a, hostname: h, path_begin: p, fingerprint: fp },
                ),
                _ => None,
            }
        },
        _ => None,
    }
}

pub fn decode_tls_front(d: &Json) -> (r: Option<TlsFront>)
    ensures
        match r {
            Some(f) => spec_decode_tls_front(*d) == Some(f@),
            None => spec_decode_tls_front(*d) is None,
        },
{
    match d {
        Json::Obj(entries) => {
            match (
                get_str(entries, "app_id"),
                get_str(entries, "hostname"),
                get_str(entries, "path_begin"),
                get_bytes(entries, "fingerprint"),
            ) {
                (Some(a), Some(h), Some(p), Some(fp)) => Some(
                    TlsFront { app_id: a, hostname: h, path_begin: p, fingerprint: fp },
                ),
                _ => None,
            }
        },
        _ => None,
    }
}

pub open spec fn spec_decode_certificate(d: Json) -> Option<CertificateAndKeyV> {
    match d {
        Json::Obj(entries) => {
            let e = entries@;
            match (
                spec_get_str(e, "certificate"@),
                spec_get_strs(e, "certificate_chain"@),
                spec_get_str(e, "key"@),
            ) {
                (Some(c), Some(ch), Some(k)) => Some(
                    CertificateAndKeyV { certificate: c, certificate_chain: ch, key: k },
                ),
                _ => None,
            }
        },
        _ => None,
    }
}

pub fn decode_certificate(d: &Json) -> (r: Option<CertificateAndKey>)
    ensures
        match r {
            Some(c) => spec_decode_certificate(*d) == Some(c@),
            None => spec_decode_certificate(*d) is None,
        },
{
    match d {
        Json::Obj(entries) => {
            match (
                get_str(entries, "certificate"),
                get_strs(entries, "certificate_chain"),
                get_str(entries, "key"),
            ) {
                (Some(c), Some(ch), Some(k)) => Some(
                    CertificateAndKey { certificate: c, certificate_chain: ch, key: k },
                ),
                _ => None,
            }
        },
        _ => None,
    }
}

pub open spec fn spec_decode_tcp_front(d: Json) -> Option<TcpFrontV> {
    match d {
        Json::Obj(entries) => {
            let e = entries@;
            match (
                spec_get_str(e, "app_id"@),
                spec_get_str(e, "ip_address"@),
                spec_get_u16(e, "port"@),
            ) {
                (Some(a), Some(ip), Some(p)) => Some(
                    TcpFrontV { app_id: a, ip_address: ip, port: p },
                ),
                _ => None,
            }
        },
        _ => None,
    }
}

pub fn decode_tcp_front(d: &Json) -> (r: Option<TcpFront>)
    ensures
        match r {
            Some(f) => spec_decode_tcp_front(*d) == Some(f@),
            None => spec_decode_tcp_front(*d) is None,
        },
{
    match d {
        Json::Obj(entries) => {
            match (
                get_str(entries, "app_id"),
                get_str(entries, "ip_address"),
                get_u16(entries, "port"),
            ) {
                (Some(a), Some(ip), Some(p)) => Some(
                    TcpFront { app_id: a, ip_address: ip, port: p },
                ),
                _ => None,
            }
        },
        _ => None,
    }
}

pub open spec fn spec_decode_instance(d: Json) -> Option<InstanceV> {
    match d {
        Json::Obj(entries) => {
            let e = entries@;
            match (
                spec_get_str(e, "app_id"@),
                spec_get_str(e, "ip_address"@),
                spec_get_u16(e, "port"@),
            ) {
                (Some(a), Some(ip), Some(p)) => Some(
                    InstanceV { app_id: a, ip_address: ip, port: p },
                ),
                _ => None,
            }
        },
        _ => None,
    }
}

pub fn decode_instance(d: &Json) -> (r: Option<Instance>)
    ensures
        match r {
            Some(f) => spec_decode_instance(*d) == Some(f@),
            None => spec_decode_instance(*d) is None,
        },
{
    match d {
        Json::Obj(entries) => {
            match (
                get_str(entries, "app_id"),
                get_str(entries, "ip_address"),
                get_u16(entries, "port"),
            ) {
                (Some(a), Some(ip), Some(p)) => Some(
                    Instance { app_id: a, ip_address: ip, port: p },
                ),
                _ => None,
            }
        },
        _ => None,
    }
}

pub open spec fn spec_decode_http_conf(d: Json) -> Option<HttpProxyConfigurationV> {
    match d {
        Json::Obj(entries) => {
            let e = entries@;
            match (
                spec_get_str(e, "front"@),
                spec_get_u64(e, "front_timeout"@),
                spec_get_u64(e, "back_timeout"@),
                spec_get_usize(e, "max_connections"@),
                spec_get_usize(e, "buffer_size"@),
                spec_get_opt_str(e, "public_address"@),
                spec_get_str(e, "answer_404"@),
                spec_get_str(e, "answer_503"@),
            ) {
                (
                    Some(front),
                    Some(ft),
                    Some(bt),
                    Some(mc),
                    Some(bs),
                    Some(pa),
                    Some(a404),
                    Some(a503),
                ) => Some(
                    HttpProxyConfigurationV {
                        front,
                        front_timeout: ft,
                        back_timeout: bt,
                        max_connections: mc,
                        buffer_size: bs,
                        public_address: pa,
                        answer_404: a404,
                        answer_503: a503,
                    },
                ),
                _ => None,
            }
        },
        _ => None,
    }
}

pub fn decode_http_conf(d: &Json) -> (r: Option<HttpProxyConfiguration>)
    ensures
        match r {
            Some(c) => spec_decode_http_conf(*d) == Some(c@),
            None => spec_decode_http_conf(*d) is None,
        },
{
    match d {
        Json::Obj(entries) => {
            match (
                get_str(entries, "front"),
                get_u64(entries, "front_timeout"),
                get_u64(entries, "back_timeout"),
                get_usize(entries, "max_connections"),
                get_usize(entries, "buffer_size"),
                get_opt_str(entries, "public_address"),
                get_str(entries, "answer_404"),
                get_str(entries, "answer_503"),
            ) {
                (
                    Some(front),
                    Some(ft),
                    Some(bt),
                    Some(mc),
                    Some(bs),
                    Some(pa),
                    Some(a404),
                    Some(a503),
                ) => Some(
                    HttpProxyConfiguration {
                        front,
                        front_timeout: ft,
                        back_timeout: bt,
                        max_connections: mc,
                        buffer_size: bs,
                        public_address: pa,
                        answer_404: a404,
                        answer_503: a503,
                    },
                ),
                _ => None,
            }
        },
        _ => None,
    }
}

pub open spec fn spec_decode_tls_conf(d: Json) -> Option<TlsProxyConfigurationV> {
    match d {
        Json::Obj(entries) => {
            let e = entries@;
            match (
                spec_get_str(e, "front"@),
                spec_get_u64(e, "front_timeout"@),
                spec_get_u64(e, "back_timeout"@),
                spec_get_usize(e, "max_connections"@),
                spec_get_usize(e, "buffer_size"@),
                spec_get_opt_str(e, "public_address"@),
                spec_get_str(e, "answer_404"@),
                spec_get_str(e, "answer_503"@),
            ) {
                (
                    Some(front),
                    Some(ft),
                    Some(bt),
                    Some(mc),
                    Some(bs),
                    Some(pa),
                    Some(a404),
                    Some(a503),
                ) => match (
                    spec_get_u64(e, "options"@),
                    spec_get_str(e, "cipher_list"@),
                    spec_get_opt_str(e, "default_name"@),
                    spec_get_opt_str(e, "default_app_id"@),
                    spec_get_opt_bytes(e, "default_certificate"@),
                    spec_get_opt_bytes(e, "default_key"@),
                    spec_get_opt_str(e, "default_certificate_chain"@),
                ) {
                    (Some(opts), Some(cl), Some(dn), Some(da), Some(dc), Some(dk), Some(dcc)) =>
                        Some(
                        TlsProxyConfigurationV {
                            front,
                            front_timeout: ft,
                            back_timeout: bt,
                            max_connections: mc,
                            buffer_size: bs,
                            public_address: pa,
                            answer_404: a404,
                            answer_503: a503,
                            options: opts,
                            cipher_list: cl,
                            default_name: dn,
                            default_app_id: da,
                            default_certificate: dc,
                            default_key: dk,
                            default_certificate_chain: dcc,
                        },
                    ),
                    _ => None,
                },
                _ => None,
            }
        },
        _ => None,
    }
}

pub fn decode_tls_conf(d: &Json) -> (r: Option<TlsProxyConfiguration>)
    ensures
        match r {
            Some(c) => spec_decode_tls_conf(*d) == Some(c@),
            None => spec_decode_tls_conf(*d) is None,
        },
{
    match d {
        Json::Obj(entries) => {
            match (
                get_str(entries, "front"),
                get_u64(entries, "front_timeout"),
                get_u64(entries, "back_timeout"),
                get_usize(entries, "max_connections"),
                get_usize(entries, "buffer_size"),
                get_opt_str(entries, "public_address"),
                get_str(entries, "answer_404"),
                get_str(entries, "answer_503"),
            ) {
                (
                    Some(front),
                    Some(ft),
                    Some(bt),
                    Some(mc),
                    Some(bs),
                    Some(pa),
                    Some(a404),
                    Some(a503),
                ) => match (
                    get_u64(entries, "options"),
                    get_str(entries, "cipher_list"),
                    get_opt_str(entries, "default_name"),
                    get_opt_str(entries, "default_app_id"),
                    get_opt_bytes(entries, "default_certificate"),
                    get_opt_bytes(entries, "default_key"),
                    get_opt_str(entries, "default_certificate_chain"),
                ) {
                    (Some(opts), Some(cl), Some(dn), Some(da), Some(dc), Some(dk), Some(dcc)) =>
                        Some(
                        TlsProxyConfiguration {
                            front,
                            front_timeout: ft,
                            back_timeout: bt,
                            max_connections: mc,
                            buffer_size: bs,
                            public_address: pa,
                            answer_404: a404,
                            answer_503: a503,
                            options: opts,
                            cipher_list: cl,
                            default_name: dn,
                            default_app_id: da,
                            default_certificate: dc,
                            default_key: dk,
                            default_certificate_chain: dcc,
                        },
                    ),
                    _ => None,
                },
                _ => None,
            }
        },
        _ => None,
    }
}

// ---------------------------------------------------------------------------
// The order decoder.
// ---------------------------------------------------------------------------

pub open spec fn spec_decode_tagged(t: Seq<char>, data: Json) -> Result<OrderV, DecodeError> {
    if t == "ADD_HTTP_FRONT"@ {
        match spec_decode_http_front(data) {
            Some(f) => Ok(OrderV::AddHttpFront(f)),
            None => Err(DecodeError::InvalidData),
        }
    } else if t == "REMOVE_HTTP_FRONT"@ {
        match spec_decode_http_front(data) {
            Some(f) => Ok(OrderV::RemoveHttpFront(f)),
            None => Err(DecodeError::InvalidData),
        }
    } else if t == "ADD_TLS_FRONT"@ {
        match spec_decode_tls_front(data) {
            Some(f) => Ok(OrderV::AddTlsFront(f)),
            None => Err(DecodeError::InvalidData),
        }
    } else if t == "REMOVE_TLS_FRONT"@ {
        match spec_decode_tls_front(data) {
            Some(f) => Ok(OrderV::RemoveTlsFront(f)),
            None => Err(DecodeError::InvalidData),
        }
    } else if t == "ADD_CERTIFICATE"@ {
        match spec_decode_certificate(data) {
            Some(c) => Ok(OrderV::AddCertificate(c)),
            None => Err(DecodeError::InvalidData),
        }
    } else if t == "REMOVE_CERTIFICATE"@ {
        match spec_arr_bytes(data) {
            Some(fp) => Ok(OrderV::RemoveCertificate(fp)),
            None => Err(DecodeError::InvalidData),
        }
    } else if t == "ADD_TCP_FRONT"@ {
        match spec_decode_tcp_front(data) {
            Some(f) => Ok(OrderV::AddTcpFront(f)),
            None => Err(DecodeError::InvalidData),
        }
    } else if t == "REMOVE_TCP_FRONT"@ {
        match spec_decode_tcp_front(data) {
            Some(f) => Ok(OrderV::RemoveTcpFront(f)),
            None => Err(DecodeError::InvalidData),
        }
    } else if t == "ADD_INSTANCE"@ {
        match spec_decode_instance(data) {
            Some(i) => Ok(OrderV::AddInstance(i)),
            None => Err(DecodeError::InvalidData),
        }
    } else if t == "REMOVE_INSTANCE"@ {
        match spec_decode_instance(data) {
            Some(i) => Ok(OrderV::RemoveInstance(i)),
            None => Err(DecodeError::InvalidData),
        }
    } else if t == "CONFIGURE_HTTP_PROXY"@ {
        match spec_decode_http_conf(data) {
            Some(c) => Ok(OrderV::HttpProxy(c)),
            None => Err(DecodeError::InvalidData),
        }
    } else if t == "CONFIGURE_TLS_PROXY"@ {
        match spec_decode_tls_conf(data) {
            Some(c) => Ok(OrderV::TlsProxy(c)),
            None => Err(DecodeError::InvalidData),
        }
    } else {
        Err(DecodeError::UnknownType)
    }
}

/// What decoding a JSON value as an order yields: the tag names the
/// variant, the three stop/status tags need no payload, every other
/// tag requires a well-shaped `data` field.
pub open spec fn spec_decode_order(j: Json) -> Result<OrderV, DecodeError> {
    match j {
        Json::Obj(entries) => {
            let e = entries@;
            match obj_get(e, "type"@) {
                Some(Json::Str(tag)) => {
                    let t = tag@;
                    if t == "SOFT_STOP"@ {
                        Ok(OrderV::SoftStop)
                    } else if t == "HARD_STOP"@ {
                        Ok(OrderV::HardStop)
                    } else if t == "STATUS"@ {
                        Ok(OrderV::Status)
                    } else {
                        match obj_get(e, "data"@) {
                            Some(data) => spec_decode_tagged(t, data),
                            None => Err(DecodeError::MissingData),
                        }
                    }
                },
                Some(_) => Err(DecodeError::InvalidData),
                None => Err(DecodeError::MissingType),
            }
        },
        _ => Err(DecodeError::NotAnObject),
    }
}

/// Decodes one order from a JSON value; exact inverse of
/// `encode_order` (see the round-trip lemma).
pub fn decode_order(j: &Json) -> (r: Result<Order, DecodeError>)
    ensures
        match r {
            Ok(o) => spec_decode_order(*j) == Ok::<OrderV, DecodeError>(o@),
            Err(e) => spec_decode_order(*j) == Err::<OrderV, DecodeError>(e),
        },
{
    match j {
        Json::Obj(entries) => {
            match obj_get_ref(entries, "type") {
                Some(Json::Str(tag)) => {
                    if str_eq(tag.as_str(), "SOFT_STOP") {
                        Ok(Order::SoftStop)
                    } else if str_eq(tag.as_str(), "HARD_STOP") {
                        Ok(Order::HardStop)
                    } else if str_eq(tag.as_str(), "STATUS") {
                        Ok(Order::Status)
                    } else {
                        match obj_get_ref(entries, "data") {
                            Some(data) => decode_tagged(tag.as_str(), data),
                            None => Err(DecodeError::MissingData),
                        }
                    }
                },
                Some(_) => Err(DecodeError::InvalidData),
                None => Err(DecodeError::MissingType),
            }
        },
        _ => Err(DecodeError::NotAnObject),
    }
}

fn decode_tagged(t: &str, data: &Json) -> (r: Result<Order, DecodeError>)
    requires
        t@ != "SOFT_STOP"@,
        t@ != "HARD_STOP"@,
        t@ != "STATUS"@,
    ensures
        match r {
            Ok(o) => spec_decode_tagged(t@, *data) == Ok::<OrderV, DecodeError>(o@),
            Err(e) => spec_decode_tagged(t@, *data) == Err::<OrderV, DecodeError>(e),
        },
{
    if str_eq(t, "ADD_HTTP_FRONT") {
        match decode_http_front(data) {
            Some(f) => Ok(Order::AddHttpFront(f)),
            None => Err(DecodeError::InvalidData),
        }
    } else if str_eq(t, "REMOVE_HTTP_FRONT") {
        match decode_http_front(data) {
            Some(f) => Ok(Order::RemoveHttpFront(f)),
            None => Err(DecodeError::InvalidData),
        }
    } else if str_eq(t, "ADD_TLS_FRONT") {
        match decode_tls_front(data) {
            Some(f) => Ok(Order::AddTlsFront(f)),
            None => Err(DecodeError::InvalidData),
        }
    } else if str_eq(t, "REMOVE_TLS_FRONT") {
        match decode_tls_front(data) {
            Some(f) => Ok(Order::RemoveTlsFront(f)),
            None => Err(DecodeError::InvalidData),
        }
    } else if str_eq(t, "ADD_CERTIFICATE") {
        match decode_certificate(data) {
            Some(c) => Ok(Order::AddCertificate(c)),
            None => Err(DecodeError::InvalidData),
        }
    } else if str_eq(t, "REMOVE_CERTIFICATE") {
        match arr_bytes(data) {
            Some(fp) => Ok(Order::RemoveCertificate(fp)),
            None => Err(DecodeError::InvalidData),
        }
    } else if str_eq(t, "ADD_TCP_FRONT") {
        match decode_tcp_front(data) {
            Some(f) => Ok(Order::AddTcpFront(f)),
            None => Err(DecodeError::InvalidData),
        }
    } else if str_eq(t, "REMOVE_TCP_FRONT") {
        match decode_tcp_front(data) {
            Some(f) => Ok(Order::RemoveTcpFront(f)),
            None => Err(DecodeError::InvalidData),
        }
    } else if str_eq(t, "ADD_INSTANCE") {
        match decode_instance(data) {
            Some(i) => Ok(Order::AddInstance(i)),
            None => Err(DecodeError::InvalidData),
        }
    } else if str_eq(t, "REMOVE_INSTANCE") {
        match decode_instance(data) {
            Some(i) => Ok(Order::RemoveInstance(i)),
            None => Err(DecodeError::InvalidData),
        }
    } else if str_eq(t, "CONFIGURE_HTTP_PROXY") {
        match decode_http_conf(data) {
            Some(c) => Ok(Order::HttpProxy(c)),
            None => Err(DecodeError::InvalidData),
        }
    } else if str_eq(t, "CONFIGURE_TLS_PROXY") {
        match decode_tls_conf(data) {
            Some(c) => Ok(Order::TlsProxy(c)),
            None => Err(DecodeError::InvalidData),
        }
    } else {
        Err(DecodeError::UnknownType)
    }
}

// ---------------------------------------------------------------------------
// The order encoder.  `encodes_*` say what shape the produced JSON
// has; the round-trip lemma below shows the decoder maps it back.
// ---------------------------------------------------------------------------

pub open spec fn str_entry(e: Seq<(String, Json)>, i: int, key: Seq<char>, val: Seq<char>) -> bool {
    e[i].0@ == key && (e[i].1 matches Json::Str(s) && s@ == val)
}

pub open spec fn u64_entry(e: Seq<(String, Json)>, i: int, key: Seq<char>, val: u64) -> bool {
    e[i].0@ == key && e[i].1 == Json::UInt(val)
}

pub open spec fn encodes_bytes(b: Seq<u8>, d: Json) -> bool {
    d matches Json::Arr(items) && items@.len() == b.len() && (forall|i: int|
        0 <= i < b.len() ==> #[trigger] items@[i] == Json::UInt(b[i] as u64))
}

pub open spec fn encodes_strs(ss: Seq<Seq<char>>, d: Json) -> bool {
    d matches Json::Arr(items) && items@.len() == ss.len() && (forall|i: int|
        0 <= i < ss.len() ==> (#[trigger] items@[i] matches Json::Str(s) && s@ == ss[i]))
}

pub open spec fn opt_str_value(o: Option<Seq<char>>, v: Json) -> bool {
    match o {
        None => v == Json::Null,
        Some(sv) => v matches Json::Str(s) && s@ == sv,
    }
}

pub open spec fn opt_bytes_value(o: Option<Seq<u8>>, v: Json) -> bool {
    match o {
        None => v == Json::Null,
        Some(bv) => encodes_bytes(bv, v),
    }
}

pub open spec fn encodes_http_front(f: HttpFrontV, d: Json) -> bool {
    d matches Json::Obj(entries) && {
        let e = entries@;
        &&& e.len() == 3
        &&& str_entry(e, 0, "app_id"@, f.app_id)
        &&& str_entry(e, 1, "hostname"@, f.hostname)
        &&& str_entry(e, 2, "path_begin"@, f.path_begin)
    }
}

pub open spec fn encodes_tls_front(f: TlsFrontV, d: Json) -> bool {
    d matches Json::Obj(entries) && {
        let e = entries@;
        &&& e.len() == 4
        &&& str_entry(e, 0, "app_id"@, f.app_id)
        &&& str_entry(e, 1, "hostname"@, f.hostname)
        &&& str_entry(e, 2, "path_begin"@, f.path_begin)
        &&& e[3].0@ == "fingerprint"@ && encodes_bytes(f.fingerprint, e[3].1)
    }
}

pub open spec fn encodes_certificate(c: CertificateAndKeyV, d: Json) -> bool {
    d matches Json::Obj(entries) && {
        let e = entries@;
        &&& e.len() == 3
        &&& str_entry(e, 0, "certificate"@, c.certificate)
        &&& e[1].0@ == "certificate_chain"@ && encodes_strs(c.certificate_chain, e[1].1)
        &&& str_entry(e, 2, "key"@, c.key)
    }
}

pub open spec fn encodes_tcp_front(f: TcpFrontV, d: Json) -> bool {
    d matches Json::Obj(entries) && {
        let e = entries@;
        &&& e.len() == 3
        &&& str_entry(e, 0, "app_id"@, f.app_id)
        &&& str_entry(e, 1, "ip_address"@, f.ip_address)
        &&& u64_entry(e, 2, "port"@, f.port as u64)
    }
}

pub open spec fn encodes_instance(f: InstanceV, d: Json) -> bool {
    d matches Json::Obj(entries) && {
        let e = entries@;
        &&& e.len() == 3
        &&& str_entry(e, 0, "app_id"@, f.app_id)
        &&& str_entry(e, 1, "ip_address"@, f.ip_address)
        &&& u64_entry(e, 2, "port"@, f.port as u64)
    }
}

pub open spec fn encodes_http_conf(c: HttpProxyConfigurationV, d: Json) -> bool {
    d matches Json::Obj(entries) && {
        let e = entries@;
        &&& e.len() == 8
        &&& str_entry(e, 0, "front"@, c.front)
        &&& u64_entry(e, 1, "front_timeout"@, c.front_timeout)
        &&& u64_entry(e, 2, "back_timeout"@, c.back_timeout)
        &&& u64_entry(e, 3, "max_connections"@, c.max_connections as u64)
        &&& u64_entry(e, 4, "buffer_size"@, c.buffer_size as u64)
        &&& e[5].0@ == "public_address"@ && opt_str_value(c.public_address, e[5].1)
        &&& str_entry(e, 6, "answer_404"@, c.answer_404)
        &&& str_entry(e, 7, "answer_503"@, c.answer_503)
    }
}

pub open spec fn encodes_tls_conf(c: TlsProxyConfigurationV, d: Json) -> bool {
    d matches Json::Obj(entries) && {
        let e = entries@;
        &&& e.len() == 15
        &&& str_entry(e, 0, "front"@, c.front)
        &&& u64_entry(e, 1, "front_timeout"@, c.front_timeout)
        &&& u64_entry(e, 2, "back_timeout"@, c.back_timeout)
        &&& u64_entry(e, 3, "max_connections"@, c.max_connections as u64)
        &&& u64_entry(e, 4, "buffer_size"@, c.buffer_size as u64)
        &&& e[5].0@ == "public_address"@ && opt_str_value(c.public_address, e[5].1)
        &&& str_entry(e, 6, "answer_404"@, c.answer_404)
        &&& str_entry(e, 7, "answer_503"@, c.answer_503)
        &&& u64_entry(e, 8, "options"@, c.options)
        &&& str_entry(e, 9, "cipher_list"@, c.cipher_list)
        &&& e[10].0@ == "default_name"@ && opt_str_value(c.default_name, e[10].1)
        &&& e[11].0@ == "default_app_id"@ && opt_str_value(c.default_app_id, e[11].1)
        &&& e[12].0@ == "default_certificate"@ && opt_bytes_value(c.default_certificate, e[12].1)
        &&& e[13].0@ == "default_key"@ && opt_bytes_value(c.default_key, e[13].1)
        &&& e[14].0@ == "default_certificate_chain"@ && opt_str_value(
            c.default_certificate_chain,
            e[14].1,
        )
    }
}

/// The `{"type", "data"}` skeleton: yields the payload when the
/// skeleton carries `tag`.
pub open spec fn encodes_tagged(j: Json, tag: Seq<char>) -> Option<Json> {
    match j {
        Json::Obj(entries) => {
            let e = entries@;
            if e.len() == 2 && e[0].0@ == "type"@ && (e[0].1 matches Json::Str(t) && t@ == tag)
                && e[1].0@ == "data"@ {
                Some(e[1].1)
            } else {
                None
            }
        },
        _ => None,
    }
}

/// A `{"type": tag}` object with no payload.
pub open spec fn encodes_bare(j: Json, tag: Seq<char>) -> bool {
    j matches Json::Obj(entries) && {
        let e = entries@;
        e.len() == 1 && e[0].0@ == "type"@ && (e[0].1 matches Json::Str(t) && t@ == tag)
    }
}

/// What `encode_order` produces for each variant.
pub open spec fn encodes_order(ov: OrderV, j: Json) -> bool {
    match ov {
        OrderV::AddHttpFront(f) => encodes_tagged(j, "ADD_HTTP_FRONT"@) matches Some(d)
            && encodes_http_front(f, d),
        OrderV::RemoveHttpFront(f) => encodes_tagged(j, "REMOVE_HTTP_FRONT"@) matches Some(d)
            && encodes_http_front(f, d),
        OrderV::AddTlsFront(f) => encodes_tagged(j, "ADD_TLS_FRONT"@) matches Some(d)
            && encodes_tls_front(f, d),
        OrderV::RemoveTlsFront(f) => encodes_tagged(j, "REMOVE_TLS_FRONT"@) matches Some(d)
            && encodes_tls_front(f, d),
        OrderV::AddCertificate(c) => encodes_tagged(j, "ADD_CERTIFICATE"@) matches Some(d)
            && encodes_certificate(c, d),
        OrderV::RemoveCertificate(fp) => encodes_tagged(j, "REMOVE_CERTIFICATE"@) matches Some(d)
            && encodes_bytes(fp, d),
        OrderV::AddTcpFront(f) => encodes_tagged(j, "ADD_TCP_FRONT"@) matches Some(d)
            && encodes_tcp_front(f, d),
        OrderV::RemoveTcpFront(f) => encodes_tagged(j, "REMOVE_TCP_FRONT"@) matches Some(d)
            && encodes_tcp_front(f, d),
        OrderV::AddInstance(i) => encodes_tagged(j, "ADD_INSTANCE"@) matches Some(d)
            && encodes_instance(i, d),
        OrderV::RemoveInstance(i) => encodes_tagged(j, "REMOVE_INSTANCE"@) matches Some(d)
            && encodes_instance(i, d),
        OrderV::HttpProxy(c) => encodes_tagged(j, "CONFIGURE_HTTP_PROXY"@) matches Some(d)
            && encodes_http_conf(c, d),
        OrderV::TlsProxy(c) => encodes_tagged(j, "CONFIGURE_TLS_PROXY"@) matches Some(d)
            && encodes_tls_conf(c, d),
        OrderV::SoftStop => encodes_bare(j, "SOFT_STOP"@),
        OrderV::HardStop => encodes_bare(j, "HARD_STOP"@),
        OrderV::Status => encodes_bare(j, "STATUS"@),
    }
}

// ---------------------------------------------------------------------------
// Exec encoders.
// ---------------------------------------------------------------------------

fn tagged(tag: &str, data: Json) -> (j: Json)
    ensures
        encodes_tagged(j, tag@) == Some(data),
{
    let mut e: Vec<(String, Json)> = Vec::new();
    e.push(("type".to_owned(), Json::Str(tag.to_owned())));
    e.push(("data".to_owned(), data));
    Json::Obj(e)
}

fn bare(tag: &str) -> (j: Json)
    ensures
        encodes_bare(j, tag@),
{
    let mut e: Vec<(String, Json)> = Vec::new();
    e.push(("type".to_owned(), Json::Str(tag.to_owned())));
    Json::Obj(e)
}

fn encode_bytes(b: &Vec<u8>) -> (d: Json)
    ensures
        encodes_bytes(b@, d),
{
    let mut items: Vec<Json> = Vec::new();
    let mut i: usize = 0;
    while i < b.len()
        invariant
            0 <= i <= b.len(),
            items@.len() == i,
            forall|m: int| 0 <= m < i ==> #[trigger] items@[m] == Json::UInt(b@[m] as u64),
        decreases b.len() - i,
    {
        items.push(Json::UInt(b[i] as u64));
        i = i + 1;
    }
    Json::Arr(items)
}

fn encode_strs(ss: &Vec<String>) -> (d: Json)
    ensures
        encodes_strs(views_of_strings(ss@), d),
{
    let mut items: Vec<Json> = Vec::new();
    let mut i: usize = 0;
    while i < ss.len()
        invariant
            0 <= i <= ss.len(),
            items@.len() == i,
            forall|m: int|
                0 <= m < i ==> (#[trigger] items@[m] matches Json::Str(s) && s@ == ss@[m]@),
        decreases ss.len() - i,
    {
        items.push(Json::Str(ss[i].clone()));
        i = i + 1;
    }
    Json::Arr(items)
}

fn encode_opt_str(o: &Option<String>) -> (v: Json)
    ensures
        opt_str_value(view_opt_str(*o), v),
{
    match o {
        None => Json::Null,
        Some(s) => Json::Str(s.clone()),
    }
}

fn encode_opt_bytes(o: &Option<Vec<u8>>) -> (v: Json)
    ensures
        opt_bytes_value(view_opt_bytes(*o), v),
{
    match o {
        None => Json::Null,
        Some(b) => encode_bytes(b),
    }
}

fn encode_http_front(f: &HttpFront) -> (d: Json)
    ensures
        encodes_http_front(f@, d),
{
    let mut e: Vec<(String, Json)> = Vec::new();
    e.push(("app_id".to_owned(), Json::Str(f.app_id.clone())));
    e.push(("hostname".to_owned(), Json::Str(f.hostname.clone())));
    e.push(("path_begin".to_owned(), Json::Str(f.path_begin.clone())));
    Json::Obj(e)
}

fn encode_tls_front(f: &TlsFront) -> (d: Json)
    ensures
        encodes_tls_front(f@, d),
{
    let mut e: Vec<(String, Json)> = Vec::new();
    e.push(("app_id".to_owned(), Json::Str(f.app_id.clone())));
    e.push(("hostname".to_owned(), Json::Str(f.hostname.clone())));
    e.push(("path_begin".to_owned(), Json::Str(f.path_begin.clone())));
    e.push(("fingerprint".to_owned(), encode_bytes(&f.fingerprint)));
    Json::Obj(e)
}

fn encode_certificate(c: &CertificateAndKey) -> (d: Json)
    ensures
        encodes_certificate(c@, d),
{
    let mut e: Vec<(String, Json)> = Vec::new();
    e.push(("certificate".to_owned(), Json::Str(c.certificate.clone())));
    e.push(("certificate_chain".to_owned(), encode_strs(&c.certificate_chain)));
    e.push(("key".to_owned(), Json::Str(c.key.clone())));
    Json::Obj(e)
}

fn encode_tcp_front(f: &TcpFront) -> (d: Json)
    ensures
        encodes_tcp_front(f@, d),
{
    let mut e: Vec<(String, Json)> = Vec::new();
    e.push(("app_id".to_owned(), Json::Str(f.app_id.clone())));
    e.push(("ip_address".to_owned(), Json::Str(f.ip_address.clone())));
    e.push(("port".to_owned(), Json::UInt(f.port as u64)));
    Json::Obj(e)
}

fn encode_instance(f: &Instance) -> (d: Json)
    ensures
        encodes_instance(f@, d),
{
    let mut e: Vec<(String, Json)> = Vec::new();
    e.push(("app_id".to_owned(), Json::Str(f.app_id.clone())));
    e.push(("ip_address".to_owned(), Json::Str(f.ip_address.clone())));
    e.push(("port".to_owned(), Json::UInt(f.port as u64)));
    Json::Obj(e)
}

fn encode_http_conf(c: &HttpProxyConfiguration) -> (d: Json)
    ensures
        encodes_http_conf(c@, d),
{
    let mut e: Vec<(String, Json)> = Vec::new();
    e.push(("front".to_owned(), Json::Str(c.front.clone())));
    e.push(("front_timeout".to_owned(), Json::UInt(c.front_timeout)));
    e.push(("back_timeout".to_owned(), Json::UInt(c.back_timeout)));
    e.push(("max_connections".to_owned(), Json::UInt(c.max_connections as u64)));
    e.push(("buffer_size".to_owned(), Json::UInt(c.buffer_size as u64)));
    e.push(("public_address".to_owned(), encode_opt_str(&c.public_address)));
    e.push(("answer_404".to_owned(), Json::Str(c.answer_404.clone())));
    e.push(("answer_503".to_owned(), Json::Str(c.answer_503.clone())));
    Json::Obj(e)
}

fn encode_tls_conf(c: &TlsProxyConfiguration) -> (d: Json)
    ensures
        encodes_tls_conf(c@, d),
{
    let mut e: Vec<(String, Json)> = Vec::new();
    e.push(("front".to_owned(), Json::Str(c.front.clone())));
    e.push(("front_timeout".to_owned(), Json::UInt(c.front_timeout)));
    e.push(("back_timeout".to_owned(), Json::UInt(c.back_timeout)));
    e.push(("max_connections".to_owned(), Json::UInt(c.max_connections as u64)));
    e.push(("buffer_size".to_owned(), Json::UInt(c.buffer_size as u64)));
    e.push(("public_address".to_owned(), encode_opt_str(&c.public_address)));
    e.push(("answer_404".to_owned(), Json::Str(c.answer_404.clone())));
    e.push(("answer_503".to_owned(), Json::Str(c.answer_503.clone())));
    e.push(("options".to_owned(), Json::UInt(c.options)));
    e.push(("cipher_list".to_owned(), Json::Str(c.cipher_list.clone())));
    e.push(("default_name".to_owned(), encode_opt_str(&c.default_name)));
    e.push(("default_app_id".to_owned(), encode_opt_str(&c.default_app_id)));
    e.push(("default_certificate".to_owned(), encode_opt_bytes(&c.default_certificate)));
    e.push(("default_key".to_owned(), encode_opt_bytes(&c.default_key)));
    e.push(("default_certificate_chain".to_owned(), encode_opt_str(&c.default_certificate_chain)));
    Json::Obj(e)
}

/// Encodes one order as the JSON object the control channel carries.
/// The TLS configuration gets its own tag, distinct from the HTTP one.
pub fn encode_order(o: &Order) -> (j: Json)
    ensures
        encodes_order(o@, j),
{
    match o {
        Order::AddHttpFront(f) => tagged("ADD_HTTP_FRONT", encode_http_front(f)),
        Order::RemoveHttpFront(f) => tagged("REMOVE_HTTP_FRONT", encode_http_front(f)),
        Order::AddTlsFront(f) => tagged("ADD_TLS_FRONT", encode_tls_front(f)),
        Order::RemoveTlsFront(f) => tagged("REMOVE_TLS_FRONT", encode_tls_front(f)),
        Order::AddCertificate(c) => tagged("ADD_CERTIFICATE", encode_certificate(c)),
        Order::RemoveCertificate(fp) => tagged("REMOVE_CERTIFICATE", encode_bytes(fp)),
        Order::AddTcpFront(f) => tagged("ADD_TCP_FRONT", encode_tcp_front(f)),
        Order::RemoveTcpFront(f) => tagged("REMOVE_TCP_FRONT", encode_tcp_front(f)),
        Order::AddInstance(i) => tagged("ADD_INSTANCE", encode_instance(i)),
        Order::RemoveInstance(i) => tagged("REMOVE_INSTANCE", encode_instance(i)),
        Order::HttpProxy(c) => tagged("CONFIGURE_HTTP_PROXY", encode_http_conf(c)),
        Order::TlsProxy(c) => tagged("CONFIGURE_TLS_PROXY", encode_tls_conf(c)),
        Order::SoftStop => bare("SOFT_STOP"),
        Order::HardStop => bare("HARD_STOP"),
        Order::Status => bare("STATUS"),
    }
}

// ---------------------------------------------------------------------------
// Round trip: decoding what the encoder produced gives the original
// order back.
// ---------------------------------------------------------------------------

/// Two character sequences differ when their lengths differ or some
/// position does.
proof fn lemma_seq_neq(a: Seq<char>, b: Seq<char>, i: int)
    requires
        a.len() != b.len() || (0 <= i < a.len() && 0 <= i < b.len() && a[i] != b[i]),
    ensures
        a != b,
{
}

proof fn lemma_arr_bytes_round(b: Seq<u8>, d: Json)
    requires
        encodes_bytes(b, d),
    ensures
        spec_arr_bytes(d) == Some(b),
{
    if let Json::Arr(items) = d {
        assert forall|i: int| 0 <= i < items@.len() implies (#[trigger] items@[i] matches
        Json::UInt(v) && v <= 255) by {
            assert(items@[i] == Json::UInt(b[i] as u64));
        }
        assert forall|i: int| 0 <= i < items@.len() implies bytes_of(items@)[i] == b[i] by {
            assert(items@[i] == Json::UInt(b[i] as u64));
        }
        assert(bytes_of(items@) =~= b);
    }
}

proof fn lemma_arr_strs_round(ss: Seq<Seq<char>>, d: Json)
    requires
        encodes_strs(ss, d),
    ensures
        d matches Json::Arr(items) && all_strs(items@) && strs_of(items@) == ss,
{
    if let Json::Arr(items) = d {
        assert forall|i: int| 0 <= i < items@.len() implies (#[trigger] items@[i] matches
        Json::Str(_)) by {
            assert(items@[i] matches Json::Str(s) && s@ == ss[i]);
        }
        assert forall|i: int| 0 <= i < items@.len() implies strs_of(items@)[i] == ss[i] by {
            assert(items@[i] matches Json::Str(s) && s@ == ss[i]);
        }
        assert(strs_of(items@) =~= ss);
    }
}

proof fn lemma_http_front_round(f: HttpFrontV, d: Json)
    requires
        encodes_http_front(f, d),
    ensures
        spec_decode_http_front(d) == Some(f),
{
    reveal_strlit("app_id");
    reveal_strlit("hostname");
    reveal_strlit("path_begin");
            lemma_seq_neq("app_id"@, "hostname"@, 0);
        lemma_seq_neq("app_id"@, "path_begin"@, 0);
        lemma_seq_neq("hostname"@, "path_begin"@, 0);
    if let Json::Obj(entries) = d {
        let e = entries@;
        lemma_obj_get_found(e, "app_id"@, 0);
        lemma_obj_get_found(e, "hostname"@, 1);
        lemma_obj_get_found(e, "path_begin"@, 2);
    }
}

proof fn lemma_tls_front_round(f: TlsFrontV, d: Json)
    requires
        encodes_tls_front(f, d),
    ensures
        spec_decode_tls_front(d) == Some(f),
{
    reveal_strlit("app_id");
    reveal_strlit("hostname");
    reveal_strlit("path_begin");
    reveal_strlit("fingerprint");
            lemma_seq_neq("app_id"@, "hostname"@, 0);
        lemma_seq_neq("app_id"@, "path_begin"@, 0);
        lemma_seq_neq("hostname"@, "path_begin"@, 0);
        lemma_seq_neq("app_id"@, "fingerprint"@, 0);
        lemma_seq_neq("hostname"@, "fingerprint"@, 0);
        lemma_seq_neq("path_begin"@, "fingerprint"@, 0);
    if let Json::Obj(entries) = d {
        let e = entries@;
        lemma_obj_get_found(e, "app_id"@, 0);
        lemma_obj_get_found(e, "hostname"@, 1);
        lemma_obj_get_found(e, "path_begin"@, 2);
        lemma_obj_get_found(e, "fingerprint"@, 3);
        lemma_arr_bytes_round(f.fingerprint, e[3].1);
    }
}

proof fn lemma_certificate_round(c: CertificateAndKeyV, d: Json)
    requires
        encodes_certificate(c, d),
    ensures
        spec_decode_certificate(d) == Some(c),
{
    reveal_strlit("certificate");
    reveal_strlit("certificate_chain");
    reveal_strlit("key");
            lemma_seq_neq("certificate"@, "certificate_chain"@, 0);
        lemma_seq_neq("certificate"@, "key"@, 0);
        lemma_seq_neq("certificate_chain"@, "key"@, 0);
    if let Json::Obj(entries) = d {
        let e = entries@;
        lemma_obj_get_found(e, "certificate"@, 0);
        lemma_obj_get_found(e, "certificate_chain"@, 1);
        lemma_obj_get_found(e, "key"@, 2);
        lemma_arr_strs_round(c.certificate_chain, e[1].1);
    }
}

proof fn lemma_tcp_front_round(f: TcpFrontV, d: Json)
    requires
        encodes_tcp_front(f, d),
    ensures
        spec_decode_tcp_front(d) == Some(f),
{
    reveal_strlit("app_id");
    reveal_strlit("ip_address");
    reveal_strlit("port");
            lemma_seq_neq("app_id"@, "ip_address"@, 0);
        lemma_seq_neq("app_id"@, "port"@, 0);
        lemma_seq_neq("ip_address"@, "port"@, 0);
    if let Json::Obj(entries) = d {
        let e = entries@;
        lemma_obj_get_found(e, "app_id"@, 0);
        lemma_obj_get_found(e, "ip_address"@, 1);
        lemma_obj_get_found(e, "port"@, 2);
    }
}

proof fn lemma_instance_round(f: InstanceV, d: Json)
    requires
        encodes_instance(f, d),
    ensures
        spec_decode_instance(d) == Some(f),
{
    reveal_strlit("app_id");
    reveal_strlit("ip_address");
    reveal_strlit("port");
            lemma_seq_neq("app_id"@, "ip_address"@, 0);
        lemma_seq_neq("app_id"@, "port"@, 0);
        lemma_seq_neq("ip_address"@, "port"@, 0);
    if let Json::Obj(entries) = d {
        let e = entries@;
        lemma_obj_get_found(e, "app_id"@, 0);
        lemma_obj_get_found(e, "ip_address"@, 1);
        lemma_obj_get_found(e, "port"@, 2);
    }
}

proof fn lemma_http_conf_round(c: HttpProxyConfigurationV, d: Json)
    requires
        encodes_http_conf(c, d),
    ensures
        spec_decode_http_conf(d) == Some(c),
{
    reveal_strlit("front");
    reveal_strlit("front_timeout");
    reveal_strlit("back_timeout");
    reveal_strlit("max_connections");
    reveal_strlit("buffer_size");
    reveal_strlit("public_address");
    reveal_strlit("answer_404");
    reveal_strlit("answer_503");
            lemma_seq_neq("front"@, "front_timeout"@, 0);
        lemma_seq_neq("front"@, "back_timeout"@, 0);
        lemma_seq_neq("front_timeout"@, "back_timeout"@, 0);
        lemma_seq_neq("front"@, "max_connections"@, 0);
        lemma_seq_neq("front_timeout"@, "max_connections"@, 0);
        lemma_seq_neq("back_timeout"@, "max_connections"@, 0);
        lemma_seq_neq("front"@, "buffer_size"@, 0);
        lemma_seq_neq("front_timeout"@, "buffer_size"@, 0);
        lemma_seq_neq("back_timeout"@, "buffer_size"@, 0);
        lemma_seq_neq("max_connections"@, "buffer_size"@, 0);
        lemma_seq_neq("front"@, "public_address"@, 0);
        lemma_seq_neq("front_timeout"@, "public_address"@, 0);
        lemma_seq_neq("back_timeout"@, "public_address"@, 0);
        lemma_seq_neq("max_connections"@, "public_address"@, 0);
        lemma_seq_neq("buffer_size"@, "public_address"@, 0);
        lemma_seq_neq("front"@, "answer_404"@, 0);
        lemma_seq_neq("front_timeout"@, "answer_404"@, 0);
        lemma_seq_neq("back_timeout"@, "answer_404"@, 0);
        lemma_seq_neq("max_connections"@, "answer_404"@, 0);
        lemma_seq_neq("buffer_size"@, "answer_404"@, 0);
        lemma_seq_neq("public_address"@, "answer_404"@, 0);
        lemma_seq_neq("front"@, "answer_503"@, 0);
        lemma_seq_neq("front_timeout"@, "answer_503"@, 0);
        lemma_seq_neq("back_timeout"@, "answer_503"@, 0);
        lemma_seq_neq("max_connections"@, "answer_503"@, 0);
        lemma_seq_neq("buffer_size"@, "answer_503"@, 0);
        lemma_seq_neq("public_address"@, "answer_503"@, 0);
        lemma_seq_neq("answer_404"@, "answer_503"@, 7);
    if let Json::Obj(entries) = d {
        let e = entries@;
        lemma_obj_get_found(e, "front"@, 0);
        lemma_obj_get_found(e, "front_timeout"@, 1);
        lemma_obj_get_found(e, "back_timeout"@, 2);
        lemma_obj_get_found(e, "max_connections"@, 3);
        lemma_obj_get_found(e, "buffer_size"@, 4);
        lemma_obj_get_found(e, "public_address"@, 5);
        lemma_obj_get_found(e, "answer_404"@, 6);
        lemma_obj_get_found(e, "answer_503"@, 7);
    }
}

proof fn lemma_tls_conf_round(c: TlsProxyConfigurationV, d: Json)
    requires
        encodes_tls_conf(c, d),
    ensures
        spec_decode_tls_conf(d) == Some(c),
{
    reveal_strlit("front");
    reveal_strlit("front_timeout");
    reveal_strlit("back_timeout");
    reveal_strlit("max_connections");
    reveal_strlit("buffer_size");
    reveal_strlit("public_address");
    reveal_strlit("answer_404");
    reveal_strlit("answer_503");
    reveal_strlit("options");
    reveal_strlit("cipher_list");
    reveal_strlit("default_name");
    reveal_strlit("default_app_id");
    reveal_strlit("default_certificate");
    reveal_strlit("default_key");
    reveal_strlit("default_certificate_chain");
            lemma_seq_neq("front"@, "front_timeout"@, 0);
        lemma_seq_neq("front"@, "back_timeout"@, 0);
        lemma_seq_neq("front_timeout"@, "back_timeout"@, 0);
        lemma_seq_neq("front"@, "max_connections"@, 0);
        lemma_seq_neq("front_timeout"@, "max_connections"@, 0);
        lemma_seq_neq("back_timeout"@, "max_connections"@, 0);
        lemma_seq_neq("front"@, "buffer_size"@, 0);
        lemma_seq_neq("front_timeout"@, "buffer_size"@, 0);
        lemma_seq_neq("back_timeout"@, "buffer_size"@, 0);
        lemma_seq_neq("max_connections"@, "buffer_size"@, 0);
        lemma_seq_neq("front"@, "public_address"@, 0);
        lemma_seq_neq("front_timeout"@, "public_address"@, 0);
        lemma_seq_neq("back_timeout"@, "public_address"@, 0);
        lemma_seq_neq("max_connections"@, "public_address"@, 0);
        lemma_seq_neq("buffer_size"@, "public_address"@, 0);
        lemma_seq_neq("front"@, "answer_404"@, 0);
        lemma_seq_neq("front_timeout"@, "answer_404"@, 0);
        lemma_seq_neq("back_timeout"@, "answer_404"@, 0);
        lemma_seq_neq("max_connections"@, "answer_404"@, 0);
        lemma_seq_neq("buffer_size"@, "answer_404"@, 0);
        lemma_seq_neq("public_address"@, "answer_404"@, 0);
        lemma_seq_neq("front"@, "answer_503"@, 0);
        lemma_seq_neq("front_timeout"@, "answer_503"@, 0);
        lemma_seq_neq("back_timeout"@, "answer_503"@, 0);
        lemma_seq_neq("max_connections"@, "answer_503"@, 0);
        lemma_seq_neq("buffer_size"@, "answer_503"@, 0);
        lemma_seq_neq("public_address"@, "answer_503"@, 0);
        lemma_seq_neq("answer_404"@, "answer_503"@, 7);
        lemma_seq_neq("front"@, "options"@, 0);
        lemma_seq_neq("front_timeout"@, "options"@, 0);
        lemma_seq_neq("back_timeout"@, "options"@, 0);
        lemma_seq_neq("max_connections"@, "options"@, 0);
        lemma_seq_neq("buffer_size"@, "options"@, 0);
        lemma_seq_neq("public_address"@, "options"@, 0);
        lemma_seq_neq("answer_404"@, "options"@, 0);
        lemma_seq_neq("answer_503"@, "options"@, 0);
        lemma_seq_neq("front"@, "cipher_list"@, 0);
        lemma_seq_neq("front_timeout"@, "cipher_list"@, 0);
        lemma_seq_neq("back_timeout"@, "cipher_list"@, 0);
        lemma_seq_neq("max_connections"@, "cipher_list"@, 0);
        lemma_seq_neq("buffer_size"@, "cipher_list"@, 0);
        lemma_seq_neq("public_address"@, "cipher_list"@, 0);
        lemma_seq_neq("answer_404"@, "cipher_list"@, 0);
        lemma_seq_neq("answer_503"@, "cipher_list"@, 0);
        lemma_seq_neq("options"@, "cipher_list"@, 0);
        lemma_seq_neq("front"@, "default_name"@, 0);
        lemma_seq_neq("front_timeout"@, "default_name"@, 0);
        lemma_seq_neq("back_timeout"@, "default_name"@, 0);
        lemma_seq_neq("max_connections"@, "default_name"@, 0);
        lemma_seq_neq("buffer_size"@, "default_name"@, 0);
        lemma_seq_neq("public_address"@, "default_name"@, 0);
        lemma_seq_neq("answer_404"@, "default_name"@, 0);
        lemma_seq_neq("answer_503"@, "default_name"@, 0);
        lemma_seq_neq("options"@, "default_name"@, 0);
        lemma_seq_neq("cipher_list"@, "default_name"@, 0);
        lemma_seq_neq("front"@, "default_app_id"@, 0);
        lemma_seq_neq("front_timeout"@, "default_app_id"@, 0);
        lemma_seq_neq("back_timeout"@, "default_app_id"@, 0);
        lemma_seq_neq("max_connections"@, "default_app_id"@, 0);
        lemma_seq_neq("buffer_size"@, "default_app_id"@, 0);
        lemma_seq_neq("public_address"@, "default_app_id"@, 0);
        lemma_seq_neq("answer_404"@, "default_app_id"@, 0);
        lemma_seq_neq("answer_503"@, "default_app_id"@, 0);
        lemma_seq_neq("options"@, "default_app_id"@, 0);
        lemma_seq_neq("cipher_list"@, "default_app_id"@, 0);
        lemma_seq_neq("default_name"@, "default_app_id"@, 0);
        lemma_seq_neq("front"@, "default_certificate"@, 0);
        lemma_seq_neq("front_timeout"@, "default_certificate"@, 0);
        lemma_seq_neq("back_timeout"@, "default_certificate"@, 0);
        lemma_seq_neq("max_connections"@, "default_certificate"@, 0);
        lemma_seq_neq("buffer_size"@, "default_certificate"@, 0);
        lemma_seq_neq("public_address"@, "default_certificate"@, 0);
        lemma_seq_neq("answer_404"@, "default_certificate"@, 0);
        lemma_seq_neq("answer_503"@, "default_certificate"@, 0);
        lemma_seq_neq("options"@, "default_certificate"@, 0);
        lemma_seq_neq("cipher_list"@, "default_certificate"@, 0);
        lemma_seq_neq("default_name"@, "default_certificate"@, 0);
        lemma_seq_neq("default_app_id"@, "default_certificate"@, 0);
        lemma_seq_neq("front"@, "default_key"@, 0);
        lemma_seq_neq("front_timeout"@, "default_key"@, 0);
        lemma_seq_neq("back_timeout"@, "default_key"@, 0);
        lemma_seq_neq("max_connections"@, "default_key"@, 0);
        lemma_seq_neq("buffer_size"@, "default_key"@, 0);
        lemma_seq_neq("public_address"@, "default_key"@, 0);
        lemma_seq_neq("answer_404"@, "default_key"@, 0);
        lemma_seq_neq("answer_503"@, "default_key"@, 0);
        lemma_seq_neq("options"@, "default_key"@, 0);
        lemma_seq_neq("cipher_list"@, "default_key"@, 0);
        lemma_seq_neq("default_name"@, "default_key"@, 0);
        lemma_seq_neq("default_app_id"@, "default_key"@, 0);
        lemma_seq_neq("default_certificate"@, "default_key"@, 0);
        lemma_seq_neq("front"@, "default_certificate_chain"@, 0);
        lemma_seq_neq("front_timeout"@, "default_certificate_chain"@, 0);
        lemma_seq_neq("back_timeout"@, "default_certificate_chain"@, 0);
        lemma_seq_neq("max_connections"@, "default_certificate_chain"@, 0);
        lemma_seq_neq("buffer_size"@, "default_certificate_chain"@, 0);
        lemma_seq_neq("public_address"@, "default_certificate_chain"@, 0);
        lemma_seq_neq("answer_404"@, "default_certificate_chain"@, 0);
        lemma_seq_neq("answer_503"@, "default_certificate_chain"@, 0);
        lemma_seq_neq("options"@, "default_certificate_chain"@, 0);
        lemma_seq_neq("cipher_list"@, "default_certificate_chain"@, 0);
        lemma_seq_neq("default_name"@, "default_certificate_chain"@, 0);
        lemma_seq_neq("default_app_id"@, "default_certificate_chain"@, 0);
        lemma_seq_neq("default_certificate"@, "default_certificate_chain"@, 0);
        lemma_seq_neq("default_key"@, "default_certificate_chain"@, 0);
    if let Json::Obj(entries) = d {
        let e = entries@;
        lemma_obj_get_found(e, "front"@, 0);
        lemma_obj_get_found(e, "front_timeout"@, 1);
        lemma_obj_get_found(e, "back_timeout"@, 2);
        lemma_obj_get_found(e, "max_connections"@, 3);
        lemma_obj_get_found(e, "buffer_size"@, 4);
        lemma_obj_get_found(e, "public_address"@, 5);
        lemma_obj_get_found(e, "answer_404"@, 6);
        lemma_obj_get_found(e, "answer_503"@, 7);
        lemma_obj_get_found(e, "options"@, 8);
        lemma_obj_get_found(e, "cipher_list"@, 9);
        lemma_obj_get_found(e, "default_name"@, 10);
        lemma_obj_get_found(e, "default_app_id"@, 11);
        lemma_obj_get_found(e, "default_certificate"@, 12);
        lemma_obj_get_found(e, "default_key"@, 13);
        lemma_obj_get_found(e, "default_certificate_chain"@, 14);
        if let Some(bv) = c.default_certificate {
            lemma_arr_bytes_round(bv, e[12].1);
        }
        if let Some(bv) = c.default_key {
            lemma_arr_bytes_round(bv, e[13].1);
        }
    }
}

proof fn lemma_skeleton(j: Json, tag: Seq<char>)
    requires
        encodes_tagged(j, tag) matches Some(_),
    ensures
        j matches Json::Obj(entries) && {
            let e = entries@;
            &&& obj_get(e, "type"@) matches Some(tv)
            &&& tv matches Json::Str(t) && t@ == tag
            &&& obj_get(e, "data"@) == Some(encodes_tagged(j, tag)->Some_0)
        },
{
    reveal_strlit("type");
    reveal_strlit("data");
    if let Json::Obj(entries) = j {
        let e = entries@;
        lemma_seq_neq("type"@, "data"@, 0);
        lemma_obj_get_found(e, "type"@, 0);
        lemma_obj_get_found(e, "data"@, 1);
    }
}

/// Round-trip law: decoding the encoding of any order yields that
/// order again; the uppercase tag written on the wire leaves no trace
/// on the order itself.
pub proof fn lemma_order_round_trip(ov: OrderV, j: Json)
    requires
        encodes_order(ov, j),
    ensures
        spec_decode_order(j) == Ok::<OrderV, DecodeError>(ov),
{
    reveal_strlit("type");
    reveal_strlit("SOFT_STOP");
    reveal_strlit("HARD_STOP");
    reveal_strlit("STATUS");
    reveal_strlit("ADD_HTTP_FRONT");
    reveal_strlit("REMOVE_HTTP_FRONT");
    reveal_strlit("ADD_TLS_FRONT");
    reveal_strlit("REMOVE_TLS_FRONT");
    reveal_strlit("ADD_CERTIFICATE");
    reveal_strlit("REMOVE_CERTIFICATE");
    reveal_strlit("ADD_TCP_FRONT");
    reveal_strlit("REMOVE_TCP_FRONT");
    reveal_strlit("ADD_INSTANCE");
    reveal_strlit("REMOVE_INSTANCE");
    reveal_strlit("CONFIGURE_HTTP_PROXY");
    reveal_strlit("CONFIGURE_TLS_PROXY");
    match ov {
        OrderV::AddHttpFront(f) => {
            lemma_skeleton(j, "ADD_HTTP_FRONT"@);
            lemma_seq_neq("SOFT_STOP"@, "ADD_HTTP_FRONT"@, 0);
            lemma_seq_neq("HARD_STOP"@, "ADD_HTTP_FRONT"@, 0);
            lemma_seq_neq("STATUS"@, "ADD_HTTP_FRONT"@, 0);
            lemma_http_front_round(f, encodes_tagged(j, "ADD_HTTP_FRONT"@)->Some_0);
        },
        OrderV::RemoveHttpFront(f) => {
            lemma_skeleton(j, "REMOVE_HTTP_FRONT"@);
            lemma_seq_neq("SOFT_STOP"@, "REMOVE_HTTP_FRONT"@, 0);
            lemma_seq_neq("HARD_STOP"@, "REMOVE_HTTP_FRONT"@, 0);
            lemma_seq_neq("STATUS"@, "REMOVE_HTTP_FRONT"@, 0);
            lemma_seq_neq("ADD_HTTP_FRONT"@, "REMOVE_HTTP_FRONT"@, 0);
            lemma_http_front_round(f, encodes_tagged(j, "REMOVE_HTTP_FRONT"@)->Some_0);
        },
        OrderV::AddTlsFront(f) => {
            lemma_skeleton(j, "ADD_TLS_FRONT"@);
            lemma_seq_neq("SOFT_STOP"@, "ADD_TLS_FRONT"@, 0);
            lemma_seq_neq("HARD_STOP"@, "ADD_TLS_FRONT"@, 0);
            lemma_seq_neq("STATUS"@, "ADD_TLS_FRONT"@, 0);
            lemma_seq_neq("ADD_HTTP_FRONT"@, "ADD_TLS_FRONT"@, 0);
            lemma_seq_neq("REMOVE_HTTP_FRONT"@, "ADD_TLS_FRONT"@, 0);
            lemma_tls_front_round(f, encodes_tagged(j, "ADD_TLS_FRONT"@)->Some_0);
        },
        OrderV::RemoveTlsFront(f) => {
            lemma_skeleton(j, "REMOVE_TLS_FRONT"@);
            lemma_seq_neq("SOFT_STOP"@, "REMOVE_TLS_FRONT"@, 0);
            lemma_seq_neq("HARD_STOP"@, "REMOVE_TLS_FRONT"@, 0);
            lemma_seq_neq("STATUS"@, "REMOVE_TLS_FRONT"@, 0);
            lemma_seq_neq("ADD_HTTP_FRONT"@, "REMOVE_TLS_FRONT"@, 0);
            lemma_seq_neq("REMOVE_HTTP_FRONT"@, "REMOVE_TLS_FRONT"@, 0);
            lemma_seq_neq("ADD_TLS_FRONT"@, "REMOVE_TLS_FRONT"@, 0);
            lemma_tls_front_round(f, encodes_tagged(j, "REMOVE_TLS_FRONT"@)->Some_0);
        },
        OrderV::AddCertificate(c) => {
            lemma_skeleton(j, "ADD_CERTIFICATE"@);
            lemma_seq_neq("SOFT_STOP"@, "ADD_CERTIFICATE"@, 0);
            lemma_seq_neq("HARD_STOP"@, "ADD_CERTIFICATE"@, 0);
            lemma_seq_neq("STATUS"@, "ADD_CERTIFICATE"@, 0);
            lemma_seq_neq("ADD_HTTP_FRONT"@, "ADD_CERTIFICATE"@, 0);
            lemma_seq_neq("REMOVE_HTTP_FRONT"@, "ADD_CERTIFICATE"@, 0);
            lemma_seq_neq("ADD_TLS_FRONT"@, "ADD_CERTIFICATE"@, 0);
            lemma_seq_neq("REMOVE_TLS_FRONT"@, "ADD_CERTIFICATE"@, 0);
            lemma_certificate_round(c, encodes_tagged(j, "ADD_CERTIFICATE"@)->Some_0);
        },
        OrderV::RemoveCertificate(fp) => {
            lemma_skeleton(j, "REMOVE_CERTIFICATE"@);
            lemma_seq_neq("SOFT_STOP"@, "REMOVE_CERTIFICATE"@, 0);
            lemma_seq_neq("HARD_STOP"@, "REMOVE_CERTIFICATE"@, 0);
            lemma_seq_neq("STATUS"@, "REMOVE_CERTIFICATE"@, 0);
            lemma_seq_neq("ADD_HTTP_FRONT"@, "REMOVE_CERTIFICATE"@, 0);
            lemma_seq_neq("REMOVE_HTTP_FRONT"@, "REMOVE_CERTIFICATE"@, 0);
            lemma_seq_neq("ADD_TLS_FRONT"@, "REMOVE_CERTIFICATE"@, 0);
            lemma_seq_neq("REMOVE_TLS_FRONT"@, "REMOVE_CERTIFICATE"@, 0);
            lemma_seq_neq("ADD_CERTIFICATE"@, "REMOVE_CERTIFICATE"@, 0);
            lemma_arr_bytes_round(fp, encodes_tagged(j, "REMOVE_CERTIFICATE"@)->Some_0);
        },
        OrderV::AddTcpFront(f) => {
            lemma_skeleton(j, "ADD_TCP_FRONT"@);
            lemma_seq_neq("SOFT_STOP"@, "ADD_TCP_FRONT"@, 0);
            lemma_seq_neq("HARD_STOP"@, "ADD_TCP_FRONT"@, 0);
            lemma_seq_neq("STATUS"@, "ADD_TCP_FRONT"@, 0);
            lemma_seq_neq("ADD_HTTP_FRONT"@, "ADD_TCP_FRONT"@, 0);
            lemma_seq_neq("REMOVE_HTTP_FRONT"@, "ADD_TCP_FRONT"@, 0);
            lemma_seq_neq("ADD_TLS_FRONT"@, "ADD_TCP_FRONT"@, 5);
            lemma_seq_neq("REMOVE_TLS_FRONT"@, "ADD_TCP_FRONT"@, 0);
            lemma_seq_neq("ADD_CERTIFICATE"@, "ADD_TCP_FRONT"@, 0);
            lemma_seq_neq("REMOVE_CERTIFICATE"@, "ADD_TCP_FRONT"@, 0);
            lemma_tcp_front_round(f, encodes_tagged(j, "ADD_TCP_FRONT"@)->Some_0);
        },
        OrderV::RemoveTcpFront(f) => {
            lemma_skeleton(j, "REMOVE_TCP_FRONT"@);
            lemma_seq_neq("SOFT_STOP"@, "REMOVE_TCP_FRONT"@, 0);
            lemma_seq_neq("HARD_STOP"@, "REMOVE_TCP_FRONT"@, 0);
            lemma_seq_neq("STATUS"@, "REMOVE_TCP_FRONT"@, 0);
            lemma_seq_neq("ADD_HTTP_FRONT"@, "REMOVE_TCP_FRONT"@, 0);
            lemma_seq_neq("REMOVE_HTTP_FRONT"@, "REMOVE_TCP_FRONT"@, 0);
            lemma_seq_neq("ADD_TLS_FRONT"@, "REMOVE_TCP_FRONT"@, 0);
            lemma_seq_neq("REMOVE_TLS_FRONT"@, "REMOVE_TCP_FRONT"@, 8);
            lemma_seq_neq("ADD_CERTIFICATE"@, "REMOVE_TCP_FRONT"@, 0);
            lemma_seq_neq("REMOVE_CERTIFICATE"@, "REMOVE_TCP_FRONT"@, 0);
            lemma_seq_neq("ADD_TCP_FRONT"@, "REMOVE_TCP_FRONT"@, 0);
            lemma_tcp_front_round(f, encodes_tagged(j, "REMOVE_TCP_FRONT"@)->Some_0);
        },
        OrderV::AddInstance(i) => {
            lemma_skeleton(j, "ADD_INSTANCE"@);
            lemma_seq_neq("SOFT_STOP"@, "ADD_INSTANCE"@, 0);
            lemma_seq_neq("HARD_STOP"@, "ADD_INSTANCE"@, 0);
            lemma_seq_neq("STATUS"@, "ADD_INSTANCE"@, 0);
            lemma_seq_neq("ADD_HTTP_FRONT"@, "ADD_INSTANCE"@, 0);
            lemma_seq_neq("REMOVE_HTTP_FRONT"@, "ADD_INSTANCE"@, 0);
            lemma_seq_neq("ADD_TLS_FRONT"@, "ADD_INSTANCE"@, 0);
            lemma_seq_neq("REMOVE_TLS_FRONT"@, "ADD_INSTANCE"@, 0);
            lemma_seq_neq("ADD_CERTIFICATE"@, "ADD_INSTANCE"@, 0);
            lemma_seq_neq("REMOVE_CERTIFICATE"@, "ADD_INSTANCE"@, 0);
            lemma_seq_neq("ADD_TCP_FRONT"@, "ADD_INSTANCE"@, 0);
            lemma_seq_neq("REMOVE_TCP_FRONT"@, "ADD_INSTANCE"@, 0);
            lemma_instance_round(i, encodes_tagged(j, "ADD_INSTANCE"@)->Some_0);
        },
        OrderV::RemoveInstance(i) => {
            lemma_skeleton(j, "REMOVE_INSTANCE"@);
            lemma_seq_neq("SOFT_STOP"@, "REMOVE_INSTANCE"@, 0);
            lemma_seq_neq("HARD_STOP"@, "REMOVE_INSTANCE"@, 0);
            lemma_seq_neq("STATUS"@, "REMOVE_INSTANCE"@, 0);
            lemma_seq_neq("ADD_HTTP_FRONT"@, "REMOVE_INSTANCE"@, 0);
            lemma_seq_neq("REMOVE_HTTP_FRONT"@, "REMOVE_INSTANCE"@, 0);
            lemma_seq_neq("ADD_TLS_FRONT"@, "REMOVE_INSTANCE"@, 0);
            lemma_seq_neq("REMOVE_TLS_FRONT"@, "REMOVE_INSTANCE"@, 0);
            lemma_seq_neq("ADD_CERTIFICATE"@, "REMOVE_INSTANCE"@, 0);
            lemma_seq_neq("REMOVE_CERTIFICATE"@, "REMOVE_INSTANCE"@, 0);
            lemma_seq_neq("ADD_TCP_FRONT"@, "REMOVE_INSTANCE"@, 0);
            lemma_seq_neq("REMOVE_TCP_FRONT"@, "REMOVE_INSTANCE"@, 0);
            lemma_seq_neq("ADD_INSTANCE"@, "REMOVE_INSTANCE"@, 0);
            lemma_instance_round(i, encodes_tagged(j, "REMOVE_INSTANCE"@)->Some_0);
        },
        OrderV::HttpProxy(c) => {
            lemma_skeleton(j, "CONFIGURE_HTTP_PROXY"@);
            lemma_seq_neq("SOFT_STOP"@, "CONFIGURE_HTTP_PROXY"@, 0);
            lemma_seq_neq("HARD_STOP"@, "CONFIGURE_HTTP_PROXY"@, 0);
            lemma_seq_neq("STATUS"@, "CONFIGURE_HTTP_PROXY"@, 0);
            lemma_seq_neq("ADD_HTTP_FRONT"@, "CONFIGURE_HTTP_PROXY"@, 0);
            lemma_seq_neq("REMOVE_HTTP_FRONT"@, "CONFIGURE_HTTP_PROXY"@, 0);
            lemma_seq_neq("ADD_TLS_FRONT"@, "CONFIGURE_HTTP_PROXY"@, 0);
            lemma_seq_neq("REMOVE_TLS_FRONT"@, "CONFIGURE_HTTP_PROXY"@, 0);
            lemma_seq_neq("ADD_CERTIFICATE"@, "CONFIGURE_HTTP_PROXY"@, 0);
            lemma_seq_neq("REMOVE_CERTIFICATE"@, "CONFIGURE_HTTP_PROXY"@, 0);
            lemma_seq_neq("ADD_TCP_FRONT"@, "CONFIGURE_HTTP_PROXY"@, 0);
            lemma_seq_neq("REMOVE_TCP_FRONT"@, "CONFIGURE_HTTP_PROXY"@, 0);
            lemma_seq_neq("ADD_INSTANCE"@, "CONFIGURE_HTTP_PROXY"@, 0);
            lemma_seq_neq("REMOVE_INSTANCE"@, "CONFIGURE_HTTP_PROXY"@, 0);
            lemma_http_conf_round(c, encodes_tagged(j, "CONFIGURE_HTTP_PROXY"@)->Some_0);
        },
        OrderV::TlsProxy(c) => {
            lemma_skeleton(j, "CONFIGURE_TLS_PROXY"@);
            lemma_seq_neq("SOFT_STOP"@, "CONFIGURE_TLS_PROXY"@, 0);
            lemma_seq_neq("HARD_STOP"@, "CONFIGURE_TLS_PROXY"@, 0);
            lemma_seq_neq("STATUS"@, "CONFIGURE_TLS_PROXY"@, 0);
            lemma_seq_neq("ADD_HTTP_FRONT"@, "CONFIGURE_TLS_PROXY"@, 0);
            lemma_seq_neq("REMOVE_HTTP_FRONT"@, "CONFIGURE_TLS_PROXY"@, 0);
            lemma_seq_neq("ADD_TLS_FRONT"@, "CONFIGURE_TLS_PROXY"@, 0);
            lemma_seq_neq("REMOVE_TLS_FRONT"@, "CONFIGURE_TLS_PROXY"@, 0);
            lemma_seq_neq("ADD_CERTIFICATE"@, "CONFIGURE_TLS_PROXY"@, 0);
            lemma_seq_neq("REMOVE_CERTIFICATE"@, "CONFIGURE_TLS_PROXY"@, 0);
            lemma_seq_neq("ADD_TCP_FRONT"@, "CONFIGURE_TLS_PROXY"@, 0);
            lemma_seq_neq("REMOVE_TCP_FRONT"@, "CONFIGURE_TLS_PROXY"@, 0);
            lemma_seq_neq("ADD_INSTANCE"@, "CONFIGURE_TLS_PROXY"@, 0);
            lemma_seq_neq("REMOVE_INSTANCE"@, "CONFIGURE_TLS_PROXY"@, 0);
            lemma_seq_neq("CONFIGURE_HTTP_PROXY"@, "CONFIGURE_TLS_PROXY"@, 0);
            lemma_tls_conf_round(c, encodes_tagged(j, "CONFIGURE_TLS_PROXY"@)->Some_0);
        },
        OrderV::SoftStop => {
            if let Json::Obj(entries) = j {
                lemma_obj_get_found(entries@, "type"@, 0);
            }
        },
        OrderV::HardStop => {
            lemma_seq_neq("SOFT_STOP"@, "HARD_STOP"@, 0);
            if let Json::Obj(entries) = j {
                lemma_obj_get_found(entries@, "type"@, 0);
            }
        },
        OrderV::Status => {
            lemma_seq_neq("SOFT_STOP"@, "STATUS"@, 0);
            lemma_seq_neq("HARD_STOP"@, "STATUS"@, 0);
            if let Json::Obj(entries) = j {
                lemma_obj_get_found(entries@, "type"@, 0);
            }
        },
    }
}

} // verus!
