//! The read-only pass that resolves an ingest to the lines it would store.
//!
//! A follower has no writing identity, so a policy on an ingest is decided
//! once, here, and what is replicated are the decided lines with the
//! timestamps they will be stored with.
use crate::codec;
use crate::error::{Error, ErrorCode, ErrorCodeView};
use crate::text;
use crate::timeseries::line_protocol;
use crate::timeseries::line_protocol::{IlpError, IlpLine, LineView};
use crate::timeseries::normalize;
use crate::timeseries::normalize::{IngestValue, JsonLines};
use crate::timeseries::rls_gate;
use crate::timeseries::rls_gate::RowImage;
use vstd::prelude::*;
use vstd::string::*;
use vstd::utf8::*;

verus! {

/// The measurement of a routing collection: what is behind its first colon.
pub open spec fn measurement_in(collection: Seq<char>) -> Seq<char> {
    match text::split_once(collection, ':') {
        Some((_, name)) => name,
        None => collection,
    }
}

pub fn measurement_of(collection: &str) -> (r: String)
    ensures
        r@ == measurement_in(collection@),
{
    let chars = text::to_chars(collection);
    match text::split_once_chars(&chars, ':') {
        Some((_, name)) => {
            let r = text::from_chars(&name, 0, name.len());
            proof {
                assert(r@ =~= name@);
            }
            r
        },
        None => collection.to_owned(),
    }
}

pub open spec fn refusal(head: Seq<char>, e: Seq<char>) -> Result<Seq<char>, ErrorCodeView> {
    Err(ErrorCodeView::RejectedPrevalidation { reason: head + e })
}

/// The lines of a payload in one of the ingest formats. A time that is too far
/// from the epoch to be held in nanoseconds is refused, and so is JSON that is
/// nested too deep to be parsed.
pub open spec fn normalized(
    collection: Seq<char>,
    payload: Seq<u8>,
    format: Seq<char>,
    time_key: Option<Seq<char>>,
    decoded: Result<Vec<Vec<(String, IngestValue)>>, String>,
) -> Result<Seq<char>, ErrorCodeView> {
    let measurement = measurement_in(collection);
    if format == "ilp"@ {
        if valid_utf8(payload) {
            Ok(decode_utf8(payload))
        } else {
            refusal(
                "timeseries resolve: line protocol is not UTF-8: "@,
                text::utf8_error_of(payload),
            )
        }
    } else if format == "ilp-msgpack"@ {
        match codec::lines_of(payload) {
            Ok(lines) => Ok(text::joined_with(lines, '\n')),
            Err(e) => refusal("timeseries resolve: invalid canonical ILP payload: "@, e),
        }
    } else if format == "msgpack"@ {
        match decoded {
            Ok(rows) => if normalize::rows_fit(rows@, time_key) {
                Ok(normalize::rows_text(rows@, measurement, time_key))
            } else {
                refusal("timeseries resolve: time out of range"@, Seq::empty())
            },
            Err(e) => refusal("timeseries resolve: msgpack decode error: "@, e@),
        }
    } else if format == "json"@ {
        if normalize::nesting(payload) > normalize::MAX_NESTING {
            refusal("timeseries resolve: JSON nested too deep"@, Seq::empty())
        } else {
            match normalize::json_rows_of(payload) {
                Ok(rows) => if normalize::all_json_times_fit(rows, time_key) {
                    Ok(normalize::json_text(rows, measurement, time_key))
                } else {
                    refusal("timeseries resolve: time out of range"@, Seq::empty())
                },
                Err(e) => refusal("timeseries resolve: JSON parse error: "@, e),
            }
        }
    } else {
        Err(
            ErrorCodeView::Internal {
                detail: "timeseries resolve: unknown ingest format: "@ + format,
            },
        )
    }
}

fn refused(head: &str, e: &str) -> (r: ErrorCode)
    ensures
        r@ == (ErrorCodeView::RejectedPrevalidation { reason: head@ + e@ }),
{
    let mut reason = head.to_owned();
    reason.append(e);
    ErrorCode::RejectedPrevalidation { reason }
}

fn bare(head: &str) -> (r: ErrorCode)
    ensures
        r@ == (ErrorCodeView::RejectedPrevalidation { reason: head@ + Seq::<char>::empty() }),
{
    let r = refused(head, "");
    proof {
        reveal_strlit("");
        assert(head@ + ""@ =~= head@ + Seq::<char>::empty());
    }
    r
}

/// Write a payload as lines, whichever format it comes in. Rows in MessagePack
/// come decoded.
pub fn normalized_ilp_batch(
    collection: &str,
    payload: &[u8],
    format: &str,
    time_key: Option<&str>,
    decoded: &Result<Vec<Vec<(String, IngestValue)>>, String>,
) -> (r: Result<String, ErrorCode>)
    ensures
        match normalized(collection@, payload@, format@, normalize::key_view(time_key), *decoded) {
            Ok(batch) => r is Ok && r->Ok_0@ == batch,
            Err(e) => r is Err && r->Err_0@ == e,
        },
{
    if text::same_text(format, "ilp") {
        return match text::string_from_utf8(text::copy_bytes(payload)) {
            Ok(s) => Ok(s),
            Err(e) => Err(
                refused("timeseries resolve: line protocol is not UTF-8: ", e.as_str()),
            ),
        };
    }
    if text::same_text(format, "ilp-msgpack") {
        return match codec::decode_lines(payload) {
            Ok(lines) => {
                let mut batch = String::new();
                text::push_joined(&mut batch, &lines, '\n');
                proof {
                    assert(batch@ =~= text::joined_with(text::text_views(lines@), '\n'));
                }
                Ok(batch)
            },
            Err(e) => Err(
                refused("timeseries resolve: invalid canonical ILP payload: ", e.as_str()),
            ),
        };
    }
    let measurement = measurement_of(collection);
    if text::same_text(format, "msgpack") {
        return match decoded {
            Ok(rows) => if normalize::rows_times_in_range(rows, time_key) {
                Ok(normalize::msgpack_rows_to_ilp(rows, measurement.as_str(), time_key))
            } else {
                Err(bare("timeseries resolve: time out of range"))
            },
            Err(e) => Err(refused("timeseries resolve: msgpack decode error: ", e.as_str())),
        };
    }
    if text::same_text(format, "json") {
        return match normalize::json_payload_to_ilp(payload, measurement.as_str(), time_key) {
            JsonLines::Lines(batch) => Ok(batch),
            JsonLines::Malformed(e) => Err(
                refused("timeseries resolve: JSON parse error: ", e.as_str()),
            ),
            JsonLines::TimeOutOfRange => Err(bare("timeseries resolve: time out of range")),
            JsonLines::TooDeep => Err(bare("timeseries resolve: JSON nested too deep")),
        };
    }
    let mut detail = "timeseries resolve: unknown ingest format: ".to_owned();
    detail.append(format);
    Err(ErrorCode::Internal { detail })
}

/// An ingest to resolve.
pub struct ResolveRequest<'a> {
    pub collection: &'a str,
    pub payload: &'a [u8],
    pub format: &'a str,
    pub rls_write_check: &'a [u8],
    /// The collection's declared time column.
    pub time_key: Option<&'a str>,
    pub now_ms: i64,
}

pub open spec fn unparsable(e: IlpError) -> ErrorCodeView {
    ErrorCodeView::RejectedPrevalidation {
        reason: "timeseries resolve: unparsable line protocol: "@ + e.spec_text(),
    }
}

/// The lines that an ingest stores, or why it is refused before its policy is
/// asked.
pub open spec fn stored_lines(
    req: ResolveRequest,
    decoded: Result<Vec<Vec<(String, IngestValue)>>, String>,
) -> Result<Seq<Seq<char>>, ErrorCodeView> {
    match normalized(
        req.collection@,
        req.payload@,
        req.format@,
        normalize::key_view(req.time_key),
        decoded,
    ) {
        Err(e) => Err(e),
        Ok(batch) => match normalize::stamped_lines(
            text::split_parts(batch, '\n'),
            (req.now_ms * normalize::NANOS_PER_MILLI) as i64,
        ) {
            Err(e) => Err(unparsable(e)),
            Ok(lines) => if lines.len() == 0 {
                Err(
                    ErrorCodeView::RejectedPrevalidation {
                        reason: "timeseries resolve: '"@ + (req.collection@
                            + "' payload holds no rows"@),
                    },
                )
            } else {
                Ok(lines)
            },
        },
    }
}

/// Whether the policy admits every row that the parsed lines are stored as.
pub open spec fn views_admitted<F: Fn(&RowImage) -> Option<bool>>(
    req: ResolveRequest,
    lines: Seq<LineView>,
    policy: F,
) -> bool {
    req.rls_write_check@.len() == 0 || forall|i: int|
        0 <= i < lines.len() ==> rls_gate::admits(
            policy,
            rls_gate::image_of(
                #[trigger] lines[i],
                normalize::key_view(req.time_key),
                req.now_ms,
            ),
        )
}

proof fn lemma_views_admitted<F: Fn(&RowImage) -> Option<bool>>(
    req: ResolveRequest,
    parsed: Seq<IlpLine>,
    policy: F,
)
    ensures
        views_admitted(req, line_protocol::line_views(parsed), policy) == rls_gate::batch_admitted(
            req.rls_write_check@,
            parsed,
            normalize::key_view(req.time_key),
            req.now_ms,
            policy,
        ),
{
    let views = line_protocol::line_views(parsed);
    if views_admitted(req, views, policy) && req.rls_write_check@.len() > 0 {
        assert forall|i: int| 0 <= i < parsed.len() implies rls_gate::admits(
            policy,
            rls_gate::image_of(
                (#[trigger] parsed[i])@,
                normalize::key_view(req.time_key),
                req.now_ms,
            ),
        ) by {
            assert(views[i] == parsed[i]@);
        }
    }
    if rls_gate::batch_admitted(
        req.rls_write_check@,
        parsed,
        normalize::key_view(req.time_key),
        req.now_ms,
        policy,
    ) && req.rls_write_check@.len() > 0 {
        assert forall|i: int| 0 <= i < views.len() implies rls_gate::admits(
            policy,
            rls_gate::image_of(
                #[trigger] views[i],
                normalize::key_view(req.time_key),
                req.now_ms,
            ),
        ) by {
            assert(views[i] == parsed[i]@);
        }
    }
}

/// The answer to a resolve: the encoded lines, or the first refusal.
pub open spec fn resolved<F: Fn(&RowImage) -> Option<bool>>(
    req: ResolveRequest,
    decoded: Result<Vec<Vec<(String, IngestValue)>>, String>,
    policy: F,
) -> Result<Seq<u8>, ErrorCodeView> {
    match stored_lines(req, decoded) {
        Err(e) => Err(e),
        Ok(lines) => match line_protocol::parsed_batch(text::joined_with(lines, '\n')) {
            Err(e) => Err(unparsable(e)),
            Ok(parsed) => if !views_admitted(req, parsed, policy) {
                Err(ErrorCodeView::RejectedAuthz { resource: req.collection@ })
            } else {
                match codec::lines_encoding_of(lines) {
                    Ok(bytes) => Ok(bytes),
                    Err(e) => Err(
                        ErrorCodeView::Internal {
                            detail: "timeseries resolve: could not encode resolved lines: "@ + e,
                        },
                    ),
                }
            },
        },
    }
}

fn stamp(req: &ResolveRequest<'_>, batch: &str) -> (r: Result<Vec<String>, ErrorCode>)
    requires
        normalize::millis_fit(req.now_ms),
    ensures
        match normalize::stamped_lines(
            text::split_parts(batch@, '\n'),
            (req.now_ms * normalize::NANOS_PER_MILLI) as i64,
        ) {
            Err(e) => r is Err && r->Err_0@ == unparsable(e),
            Ok(lines) => if lines.len() == 0 {
                r is Err && r->Err_0@ == (ErrorCodeView::RejectedPrevalidation {
                    reason: "timeseries resolve: '"@ + (req.collection@
                        + "' payload holds no rows"@),
                })
            } else {
                r is Ok && text::text_views(r->Ok_0@) == lines
            },
        },
{
    match normalize::stamp_timestamps(batch, req.now_ms) {
        Err(e) => Err(refused("timeseries resolve: unparsable line protocol: ", e.text())),
        Ok(lines) => {
            if lines.len() == 0 {
                let mut reason = "timeseries resolve: '".to_owned();
                reason.append(req.collection);
                reason.append("' payload holds no rows");
                proof {
                    assert(reason@ =~= "timeseries resolve: '"@ + (req.collection@
                        + "' payload holds no rows"@));
                }
                return Err(ErrorCode::RejectedPrevalidation { reason });
            }
            Ok(lines)
        },
    }
}

/// Resolve an ingest to the lines that it would store, encoded. A plan that is
/// no ingest is refused. Rows in MessagePack come decoded. What is answered
/// decodes to exactly those lines, where their lengths can be written.
pub fn execute_timeseries_resolve_ingest<F: Fn(&RowImage) -> Option<bool>>(
    inner: Option<&ResolveRequest<'_>>,
    decoded: &Result<Vec<Vec<(String, IngestValue)>>, String>,
    policy: F,
) -> (r: Result<Vec<u8>, ErrorCode>)
    requires
        rls_gate::decides(policy),
        inner matches Some(req) ==> normalize::millis_fit(req.now_ms),
    ensures
        match inner {
            None => r is Err && r->Err_0@ == (ErrorCodeView::Internal {
                detail: "timeseries resolve pass wraps a plan that is not an ingest"@,
            }),
            Some(req) => match resolved(*req, *decoded, policy) {
                Ok(bytes) => r is Ok && r->Ok_0@ == bytes && (codec::texts_fit(
                    stored_lines(*req, *decoded)->Ok_0,
                ) ==> codec::lines_of(bytes) == Ok::<Seq<Seq<char>>, Seq<char>>(
                    stored_lines(*req, *decoded)->Ok_0,
                )),
                Err(e) => r is Err && r->Err_0@ == e,
            },
        },
{
    let req = match inner {
        None => {
            return Err(
                ErrorCode::Internal {
                    detail: "timeseries resolve pass wraps a plan that is not an ingest".to_owned(),
                },
            );
        },
        Some(req) => req,
    };
    let batch = match normalized_ilp_batch(
        req.collection,
        req.payload,
        req.format,
        req.time_key,
        decoded,
    ) {
        Ok(batch) => batch,
        Err(e) => {
            return Err(e);
        },
    };
    let lines = match stamp(req, batch.as_str()) {
        Ok(lines) => lines,
        Err(e) => {
            return Err(e);
        },
    };
    let mut joined = String::new();
    text::push_joined(&mut joined, &lines, '\n');
    proof {
        assert(joined@ =~= text::joined_with(text::text_views(lines@), '\n'));
    }
    let parsed = match line_protocol::parse_batch(joined.as_str()) {
        Ok(parsed) => parsed,
        Err(e) => {
            return Err(refused("timeseries resolve: unparsable line protocol: ", e.text()));
        },
    };
    proof {
        lemma_views_admitted(*req, parsed@, policy);
    }
    match rls_gate::admit_ilp_lines(
        req.rls_write_check,
        &parsed,
        req.time_key,
        req.now_ms,
        req.collection,
        policy,
    ) {
        Ok(()) => {},
        Err(Error::RejectedAuthz { resource }) => {
            return Err(ErrorCode::RejectedAuthz { resource });
        },
        Err(e) => {
            return Err(ErrorCode::Internal { detail: e.text() });
        },
    }
    match codec::encode_lines(&lines) {
        Ok(bytes) => Ok(bytes),
        Err(e) => {
            let mut detail = "timeseries resolve: could not encode resolved lines: ".to_owned();
            detail.append(e.as_str());
            Err(ErrorCode::Internal { detail })
        },
    }
}

/// The measurement of a collection is what follows the first colon of its name, and
/// its whole name where there is none.
pub proof fn law_a_measurement_is_behind_the_first_colon(
    collection: Seq<char>,
    head: Seq<char>,
    name: Seq<char>,
)
    ensures
        !collection.contains(':') ==> measurement_in(collection) == collection,
        !head.contains(':') && collection == head + seq![':'] + name ==> measurement_in(collection)
            == name,
{
    if !collection.contains(':') {
        text::lemma_index_is(collection, ':', 0, collection.len() as int);
    }
    if !head.contains(':') && collection == head + seq![':'] + name {
        text::lemma_split_once_at(head, ':', name);
    }
}

/// Each format is read in its own way; a format that is none of the four is an
/// error. Line protocol is taken as it is.
pub proof fn law_each_format_is_read_in_its_way(
    collection: Seq<char>,
    payload: Seq<u8>,
    format: Seq<char>,
    time_key: Option<Seq<char>>,
    decoded: Result<Vec<Vec<(String, IngestValue)>>, String>,
)
    ensures
        ({
            let r = normalized(collection, payload, format, time_key, decoded);
            &&& format == "ilp"@ ==> (r is Ok <==> valid_utf8(payload)) && (r matches Ok(t) ==> t
                == decode_utf8(payload))
            &&& format == "ilp-msgpack"@ ==> (r is Ok <==> codec::lines_of(payload) is Ok) && (
            r matches Ok(t) ==> t == text::joined_with(codec::lines_of(payload)->Ok_0, '\n'))
            &&& format == "msgpack"@ ==> (r is Ok <==> decoded is Ok && normalize::rows_fit(
                decoded->Ok_0@,
                time_key,
            )) && (r matches Ok(t) ==> t == normalize::rows_text(
                decoded->Ok_0@,
                measurement_in(collection),
                time_key,
            ))
            &&& format == "json"@ ==> (r is Ok <==> normalize::nesting(payload)
                <= normalize::MAX_NESTING && normalize::json_rows_of(payload) is Ok
                && normalize::all_json_times_fit(normalize::json_rows_of(payload)->Ok_0, time_key))
                && (r matches Ok(t) ==> t == normalize::json_text(
                normalize::json_rows_of(payload)->Ok_0,
                measurement_in(collection),
                time_key,
            ))
            &&& format != "ilp"@ && format != "ilp-msgpack"@ && format != "msgpack"@ && format
                != "json"@ ==> (r matches Err(e) && e is Internal)
        }),
{
    reveal_strlit("ilp");
    reveal_strlit("ilp-msgpack");
    reveal_strlit("msgpack");
    reveal_strlit("json");
    assert("ilp"@.len() == 3 && "ilp-msgpack"@.len() == 11 && "msgpack"@.len() == 7 && "json"@.len()
        == 4);
}

/// A batch is resolved to the encoding of its stored lines exactly where those parse
/// and the policy admits every one of them; a line that it does not admit refuses
/// the whole batch.
pub proof fn law_a_batch_is_resolved_where_every_line_is_admitted<
    F: Fn(&RowImage) -> Option<bool>,
>(
    req: ResolveRequest,
    decoded: Result<Vec<Vec<(String, IngestValue)>>, String>,
    policy: F,
    lines: Seq<Seq<char>>,
    parsed: Seq<LineView>,
)
    requires
        stored_lines(req, decoded) == Ok::<Seq<Seq<char>>, ErrorCodeView>(lines),
        line_protocol::parsed_batch(text::joined_with(lines, '\n')) == Ok::<Seq<LineView>, IlpError>(
            parsed,
        ),
    ensures
        ({
            let r = resolved(req, decoded, policy);
            let key = normalize::key_view(req.time_key);
            let admitted = req.rls_write_check@.len() == 0 || forall|i: int|
                0 <= i < parsed.len() ==> rls_gate::admits(
                    policy,
                    rls_gate::image_of(#[trigger] parsed[i], key, req.now_ms),
                );
            &&& !admitted ==> r == Err::<Seq<u8>, ErrorCodeView>(
                ErrorCodeView::RejectedAuthz { resource: req.collection@ },
            )
            &&& admitted ==> (r matches Ok(bytes) ==> codec::lines_encoding_of(lines) == Ok::<
                Seq<u8>,
                Seq<char>,
            >(bytes))
            &&& admitted ==> (r is Ok <==> codec::lines_encoding_of(lines) is Ok)
        }),
        lines.len() > 0,
{
}

} // verus!
