use vstd::prelude::*;
use vstd::string::*;

use crate::errors::RunError;
use crate::record::{LogMessage, SpecRecord};
use crate::timestamp::{
    format_rfc3339, parse_rfc3339, parsed_ts, rfc3339_of, ts_representable, ts_wf, Timestamp,
};

verus! {

/// The index of the first space in `s`, if any.
pub open spec fn find_space(s: Seq<char>) -> Option<int>
    decreases s.len(),
{
    if s.len() == 0 {
        None
    } else if s[0] == ' ' {
        Some(0int)
    } else {
        match find_space(s.drop_first()) {
            None => None,
            Some(i) => Some(i + 1),
        }
    }
}

pub proof fn lemma_find_space_some(s: Seq<char>, i: int)
    requires
        0 <= i < s.len(),
        s[i] == ' ',
        forall|j: int| 0 <= j < i ==> s[j] != ' ',
    ensures
        find_space(s) == Some(i),
    decreases i,
{
    if i > 0 {
        assert(s[0] != ' ');
        assert(s.drop_first()[i - 1] == s[i]);
        assert forall|j: int| 0 <= j < i - 1 implies s.drop_first()[j] != ' ' by {
            assert(s.drop_first()[j] == s[j + 1]);
        }
        lemma_find_space_some(s.drop_first(), i - 1);
    }
}

pub proof fn lemma_find_space_none(s: Seq<char>)
    requires
        forall|j: int| 0 <= j < s.len() ==> s[j] != ' ',
    ensures
        find_space(s) is None,
    decreases s.len(),
{
    if s.len() > 0 {
        assert forall|j: int| 0 <= j < s.drop_first().len() implies s.drop_first()[j] != ' ' by {
            assert(s.drop_first()[j] == s[j + 1]);
        }
        lemma_find_space_none(s.drop_first());
    }
}

/// What one raw line decodes to: `None` when the line has no space (so no
/// body) or when its leading token is not a valid RFC 3339 timestamp;
/// otherwise the parsed instant and the body after the first space.
pub open spec fn spec_decode(line: Seq<char>) -> Option<(Timestamp, Seq<char>)> {
    match find_space(line) {
        None => None,
        Some(i) => match parsed_ts(line.subrange(0, i)) {
            None => None,
            Some(p) => Some(
                (Timestamp { secs: p.0, nanos: p.1 }, line.subrange(i + 1, line.len() as int)),
            ),
        },
    }
}

/// The wire encoding of a record: its RFC 3339 timestamp, one space, and
/// the body.
pub open spec fn spec_encode_wire(t: Timestamp, body: Seq<char>) -> Seq<char> {
    rfc3339_of(t.secs, t.nanos) + seq![' '] + body
}

/// The broker message payload: the source identifier, one space, and the
/// wire encoding of the record.
pub open spec fn spec_payload(r: SpecRecord) -> Seq<char> {
    r.source + seq![' '] + spec_encode_wire(r.timestamp, r.body)
}

fn find_space_index(line: &str) -> (r: Option<usize>)
    ensures
        match r {
            Some(i) => i < line@.len() && line@[i as int] == ' ' && find_space(line@) == Some(
                i as int,
            ),
            None => find_space(line@) is None,
        },
{
    let n = line.unicode_len();
    let mut i: usize = 0;
    while i < n
        invariant
            i <= n,
            n == line@.len(),
            forall|j: int| 0 <= j < i ==> line@[j] != ' ',
        decreases n - i,
    {
        if line.get_char(i) == ' ' {
            proof {
                lemma_find_space_some(line@, i as int);
            }
            return Some(i);
        }
        i = i + 1;
    }
    proof {
        lemma_find_space_none(line@);
    }
    None
}

/// Split one raw line into its timestamp token and its body. The decoder
/// never stops a run: a line with no space, or whose leading token does
/// not parse, is rejected as `MalformedLine` and nothing more.
pub fn decode_line(source: &str, line: &str) -> (r: Result<LogMessage, RunError>)
    ensures
        match r {
            Ok(m) => {
                &&& spec_decode(line@) == Some((m.timestamp, m.text@))
                &&& m.source@ == source@
                &&& ts_wf(m.timestamp)
                &&& ts_representable(m.timestamp.secs, m.timestamp.nanos)
            },
            Err(e) => e == RunError::MalformedLine && spec_decode(line@) is None,
        },
{
    let n = line.unicode_len();
    match find_space_index(line) {
        None => Err(RunError::MalformedLine),
        Some(i) => {
            let ts_str = line.substring_char(0, i);
            let body = line.substring_char(i + 1, n);
            match parse_rfc3339(ts_str) {
                None => Err(RunError::MalformedLine),
                Some(t) => {
                    let m = LogMessage {
                        source: source.to_owned(),
                        timestamp: t,
                        text: body.to_owned(),
                    };
                    proof {
                        assert(spec_decode(line@) == Some((m.timestamp, m.text@)));
                    }
                    Ok(m)
                },
            }
        },
    }
}

/// Encode a record for the wire. Succeeds exactly when the timestamp is
/// representable; outside a leap second, decoding the result yields the
/// record's timestamp and body back, so decoding an encoded line and
/// re-encoding it changes nothing.
pub fn encode_wire(m: &LogMessage) -> (r: Option<String>)
    ensures
        r is Some <==> ts_representable(m.timestamp.secs, m.timestamp.nanos),
        match r {
            Some(s) => {
                &&& s@ == spec_encode_wire(m.timestamp, m.text@)
                &&& m.timestamp.nanos < 1_000_000_000 ==> spec_decode(s@) == Some(
                    (m.timestamp, m.text@),
                )
            },
            None => true,
        },
{
    match format_rfc3339(&m.timestamp) {
        None => None,
        Some(ts_str) => {
            let ghost enc = rfc3339_of(m.timestamp.secs, m.timestamp.nanos);
            let mut out = ts_str;
            out.append(" ");
            out.append(m.text.as_str());
            proof {
                reveal_strlit(" ");
                assert(" "@ =~= seq![' ']);
                assert(out@ =~= spec_encode_wire(m.timestamp, m.text@));
                if m.timestamp.nanos < 1_000_000_000 {
                    let s = out@;
                    let k = enc.len() as int;
                    assert(s[k] == ' ');
                    assert forall|j: int| 0 <= j < k implies s[j] != ' ' by {
                        assert(s[j] == enc[j]);
                    }
                    lemma_find_space_some(s, k);
                    assert(s.subrange(0, k) =~= enc);
                    assert(s.subrange(k + 1, s.len() as int) =~= m.text@);
                }
            }
            Some(out)
        },
    }
}

/// Encode a record as a broker payload. Succeeds exactly when the
/// timestamp is representable.
pub fn encode_payload(m: &LogMessage) -> (r: Option<String>)
    ensures
        r is Some <==> ts_representable(m.timestamp.secs, m.timestamp.nanos),
        (match r {
            Some(s) => s@ == spec_payload(m@),
            None => true,
        }),
{
    match encode_wire(m) {
        None => None,
        Some(wire) => {
            let mut out = m.source.clone();
            out.append(" ");
            out.append(wire.as_str());
            proof {
                reveal_strlit(" ");
                assert(" "@ =~= seq![' ']);
                assert(out@ =~= spec_payload(m@));
            }
            Some(out)
        },
    }
}

} // verus!
