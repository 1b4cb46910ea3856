//! Applying header edits to an `http::HeaderMap`.
//!
//! The map is modelled by its entries: for each normalized header name (its
//! bytes), the byte strings of its values in order.

use vstd::prelude::*;

use vstd::utf8::{encode_utf8, is_ascii_chars, is_ascii_chars_encode_utf8};

use crate::rules::{actions_view, is_token_char, valid_header_name, ActionView, HeaderAction, HeaderOp};
use crate::text::ascii_lower;

verus! {

#[verifier::external_type_specification]
#[verifier::external_body]
#[verifier::reject_recursive_types(T)]
pub struct ExHeaderMap<T>(http::HeaderMap<T>);

#[verifier::external_type_specification]
#[verifier::external_body]
pub struct ExHeaderValue(http::HeaderValue);

/// The entries of a header map: each normalized name's values, in order.
pub uninterp spec fn header_map_entries(m: http::HeaderMap<http::HeaderValue>) -> Map<
    Seq<u8>,
    Seq<Seq<u8>>,
>;

/// A byte `http::HeaderName::from_bytes` accepts in a name: an RFC 7230
/// token character (ASCII letters and digits, and `!#$%&'*+-.^_`|~`).
pub open spec fn name_byte_ok(b: u8) -> bool {
    ||| 0x61 <= b <= 0x7a
    ||| 0x41 <= b <= 0x5a
    ||| 0x30 <= b <= 0x39
    ||| b == 0x21 || b == 0x23 || b == 0x24 || b == 0x25 || b == 0x26 || b == 0x27
    ||| b == 0x2a || b == 0x2b || b == 0x2d || b == 0x2e || b == 0x5e || b == 0x5f
    ||| b == 0x60 || b == 0x7c || b == 0x7e
}

/// An ASCII upper-case letter byte mapped to lower case.
pub open spec fn lower_byte(b: u8) -> u8 {
    if 0x41 <= b <= 0x5a {
        (b + 32) as u8
    } else {
        b
    }
}

/// What `http::HeaderName::from_bytes` makes of a name: `None` when it
/// refuses it, else the bytes of the normalized name. It accepts 1 to 65535
/// token bytes and lower-cases them.
pub open spec fn header_name_parse(name: Seq<u8>) -> Option<Seq<u8>> {
    if 1 <= name.len() <= 65535 && forall|i: int| 0 <= i < name.len() ==> name_byte_ok(
        #[trigger] name[i],
    ) {
        Some(name.map_values(|b: u8| lower_byte(b)))
    } else {
        None
    }
}

/// A byte `http::HeaderValue::from_str` accepts: visible ASCII, any byte
/// above 127, or a tab.
pub open spec fn value_byte_ok(b: u8) -> bool {
    (b >= 32 && b != 127) || b == 9
}

/// Every byte of `v` is accepted in a header value.
pub open spec fn value_ok(v: Seq<u8>) -> bool {
    forall|i: int| 0 <= i < v.len() ==> value_byte_ok(#[trigger] v[i])
}

/// A map this small can take `n` more names whatever state its table is in:
/// `HeaderMap` refuses to grow past 32768 slots, and with fewer than 32768 / 5
/// names it never needs to.
pub open spec fn room_for_inserts(m: Map<Seq<u8>, Seq<Seq<u8>>>, n: nat) -> bool {
    (m.dom().len() + n) * 5 < 32768
}

/// `HeaderMap::remove` of the name `HeaderName::from_bytes` makes of `name`
/// (nothing happens when it refuses the name): every value of that name goes.
#[verifier::external_body]
fn map_remove(map: &mut http::HeaderMap<http::HeaderValue>, name: &str)
    ensures
        header_map_entries(*final(map)) == match header_name_parse(encode_utf8(name@)) {
            Some(k) => header_map_entries(*old(map)).remove(k),
            None => header_map_entries(*old(map)),
        },
        header_map_entries(*final(map)).dom().len() <= header_map_entries(*old(map)).dom().len(),
{
    if let Ok(n) = http::HeaderName::from_bytes(name.as_bytes()) {
        map.remove(&n);
    }
}

/// `HeaderMap::try_insert` of the name `HeaderName::from_bytes` makes of
/// `name` and the value `HeaderValue::from_str` makes of `value`: the name then
/// has this one value. Nothing happens when either conversion refuses its
/// input (the value is refused exactly when one of its bytes is a control
/// byte other than tab); then the result is `true`. The result is `false` when
/// the map is at its size limit and refuses to grow, which leaves it as it
/// was; when it can happen depends on the table's hidden state, but not while
/// the map has room for one more name.
#[verifier::external_body]
fn map_insert(map: &mut http::HeaderMap<http::HeaderValue>, name: &str, value: &str) -> (r: bool)
    ensures
        r ==> header_map_entries(*final(map)) == match header_name_parse(encode_utf8(name@)) {
            Some(k) => if value_ok(encode_utf8(value@)) {
                header_map_entries(*old(map)).insert(k, seq![encode_utf8(value@)])
            } else {
                header_map_entries(*old(map))
            },
            None => header_map_entries(*old(map)),
        },
        !r ==> header_map_entries(*final(map)) == header_map_entries(*old(map)),
        !r ==> header_name_parse(encode_utf8(name@)) is Some && value_ok(encode_utf8(value@)),
        room_for_inserts(header_map_entries(*old(map)), 1) ==> r,
        header_map_entries(*final(map)).dom().len() <= header_map_entries(*old(map)).dom().len()
            + 1,
{
    if let Ok(n) = http::HeaderName::from_bytes(name.as_bytes()) {
        if let Ok(v) = http::HeaderValue::from_str(value) {
            return map.try_insert(n, v).is_ok();
        }
    }
    true
}

/// The entries after applying one edit: a removal drops the name, a set
/// gives it the one value (unless the value is refused), and an edit whose
/// name is refused changes nothing.
pub open spec fn apply_one(m: Map<Seq<u8>, Seq<Seq<u8>>>, a: ActionView) -> Map<Seq<u8>, Seq<Seq<u8>>> {
    match header_name_parse(encode_utf8(a.name)) {
        None => m,
        Some(k) => if a.op == HeaderOp::Remove {
            m.remove(k)
        } else if value_ok(encode_utf8(a.value)) {
            m.insert(k, seq![encode_utf8(a.value)])
        } else {
            m
        },
    }
}

/// The entries after applying the edits in order.
pub open spec fn apply_all(m: Map<Seq<u8>, Seq<Seq<u8>>>, ops: Seq<ActionView>) -> Map<
    Seq<u8>,
    Seq<Seq<u8>>,
>
    decreases ops.len(),
{
    if ops.len() == 0 {
        m
    } else {
        apply_one(apply_all(m, ops.drop_last()), ops.last())
    }
}

/// The edit sets a header whose name and value `http` accepts, so that it
/// needs room in the map.
pub open spec fn inserts(a: ActionView) -> bool {
    &&& a.op == HeaderOp::Assign
    &&& header_name_parse(encode_utf8(a.name)) is Some
    &&& value_ok(encode_utf8(a.value))
}

/// The edits stopped at one that the map, full, refused: `done` is what the
/// edits before it made of `m`.
pub open spec fn halted(done: Map<Seq<u8>, Seq<Seq<u8>>>, m: Map<Seq<u8>, Seq<Seq<u8>>>, ops: Seq<
    ActionView,
>) -> bool {
    exists|k: int| 0 <= k < ops.len() && #[trigger] inserts(ops[k]) && done == apply_all(m, ops.take(k))
}

/// Applies header edits, in order, to a header map. The result is `false`
/// when the map, at its size limit, refused to take a new name; the edits
/// stop there. That cannot happen while the map has room for one more name
/// per edit.
pub fn apply(headers: &mut http::HeaderMap<http::HeaderValue>, ops: &Vec<HeaderAction>) -> (r: bool)
    ensures
        r ==> header_map_entries(*final(headers)) == apply_all(
            header_map_entries(*old(headers)),
            actions_view(ops@),
        ),
        !r ==> halted(
            header_map_entries(*final(headers)),
            header_map_entries(*old(headers)),
            actions_view(ops@),
        ),
        room_for_inserts(header_map_entries(*old(headers)), ops@.len()) ==> r,
        header_map_entries(*final(headers)).dom().len() <= header_map_entries(
            *old(headers),
        ).dom().len() + ops@.len(),
{
    let ghost start = header_map_entries(*headers);
    let ghost all = actions_view(ops@);
    let mut i: usize = 0;
    assert(all.take(0) =~= Seq::<ActionView>::empty());
    while i < ops.len()
        invariant
            i <= ops@.len(),
            start == header_map_entries(*old(headers)),
            all == actions_view(ops@),
            header_map_entries(*headers) == apply_all(start, all.take(i as int)),
            header_map_entries(*headers).dom().len() <= start.dom().len() + i,
        decreases ops@.len() - i,
    {
        proof {
            assert(all.take(i + 1).drop_last() =~= all.take(i as int));
            assert(all.take(i + 1).last() == ops@[i as int]@);
        }
        let op = &ops[i];
        match op.op {
            HeaderOp::Remove => {
                map_remove(headers, op.name.as_str());
            },
            HeaderOp::Assign => {
                if !map_insert(headers, op.name.as_str(), op.value.as_str()) {
                    assert(all[i as int] == ops@[i as int]@);
                    assert(inserts(all[i as int]));
                    assert(halted(header_map_entries(*headers), start, all));
                    return false;
                }
            },
        }
        i = i + 1;
    }
    assert(all.take(ops@.len() as int) =~= all);
    true
}

/// The name of the verify-mode summary header.
pub const APPLIED_HEADER: &'static str = "x-reheader-applied";

/// The edits that finish a response: the pending edits and, in verify mode,
/// the summary header.
pub open spec fn finished_ops(pending: Seq<ActionView>, applied: Option<Seq<char>>) -> Seq<
    ActionView,
> {
    match applied {
        Some(s) => pending.push(ActionView { op: HeaderOp::Assign, name: APPLIED_HEADER@, value: s }),
        None => pending,
    }
}

/// The entries of a response after the pending edits and, in verify mode,
/// the summary header.
pub open spec fn finished_entries(
    m: Map<Seq<u8>, Seq<Seq<u8>>>,
    pending: Seq<ActionView>,
    applied: Option<Seq<char>>,
) -> Map<Seq<u8>, Seq<Seq<u8>>> {
    apply_all(m, finished_ops(pending, applied))
}

/// Edits a response's headers: the pending response-header edits, then, in
/// verify mode, the `X-ReHeader-Applied` summary. As with `apply`, `false`
/// means the full map refused a new name and the edits stopped there.
pub fn finish_response(
    headers: &mut http::HeaderMap<http::HeaderValue>,
    pending: &Vec<HeaderAction>,
    applied: &Option<String>,
) -> (r: bool)
    ensures
        r ==> header_map_entries(*final(headers)) == finished_entries(
            header_map_entries(*old(headers)),
            actions_view(pending@),
            crate::rules::opt_view(*applied),
        ),
        !r ==> halted(
            header_map_entries(*final(headers)),
            header_map_entries(*old(headers)),
            finished_ops(actions_view(pending@), crate::rules::opt_view(*applied)),
        ),
        room_for_inserts(header_map_entries(*old(headers)), pending@.len() + 1) ==> r,
{
    let ghost start = header_map_entries(*headers);
    let ghost p = actions_view(pending@);
    let ghost ops = finished_ops(p, crate::rules::opt_view(*applied));
    if !apply(headers, pending) {
        proof {
            let k = choose|k: int| 0 <= k < p.len() && #[trigger] inserts(p[k])
                && header_map_entries(*headers) == apply_all(start, p.take(k));
            assert(ops[k] == p[k]);
            assert(ops.take(k) =~= p.take(k));
            assert(inserts(ops[k]));
        }
        return false;
    }
    match applied {
        Some(summary) => {
            let ghost x = ActionView { op: HeaderOp::Assign, name: APPLIED_HEADER@, value: summary@ };
            assert(ops =~= p.push(x));
            assert(ops.drop_last() =~= p);
            if !map_insert(headers, APPLIED_HEADER, summary.as_str()) {
                proof {
                    let k = p.len() as int;
                    assert(ops[k] == x);
                    assert(ops.take(k) =~= p);
                    assert(inserts(ops[k]));
                }
                return false;
            }
            true
        },
        None => true,
    }
}

/// A valid header name (RFC 7230 token) of at most 65535 characters is one
/// `http` accepts, and it keys the map by its ASCII lower case.
pub proof fn lemma_valid_name_accepted(name: Seq<char>)
    requires
        valid_header_name(name),
        name.len() <= 65535,
    ensures
        header_name_parse(encode_utf8(name)) == Some(encode_utf8(ascii_lower(name))),
{
    let l = ascii_lower(name);
    assert(is_ascii_chars(name)) by {
        assert forall|i: int| 0 <= i < name.len() implies '\0' <= #[trigger] name[i] <= '\u{7f}' by {
            assert(is_token_char(name[i]));
        }
    }
    assert(is_ascii_chars(l)) by {
        assert forall|i: int| 0 <= i < l.len() implies '\0' <= #[trigger] l[i] <= '\u{7f}' by {
            assert(is_token_char(name[i]));
        }
    }
    is_ascii_chars_encode_utf8(name);
    is_ascii_chars_encode_utf8(l);
    let b = encode_utf8(name);
    assert forall|i: int| 0 <= i < b.len() implies name_byte_ok(#[trigger] b[i]) by {
        assert(is_token_char(name[i]));
        assert(b[i] == name[i] as u8);
    }
    assert(b.map_values(|x: u8| lower_byte(x)) =~= encode_utf8(l)) by {
        assert forall|i: int| 0 <= i < b.len() implies #[trigger] lower_byte(b[i]) == encode_utf8(
            l,
        )[i] by {
            assert(is_token_char(name[i]));
            assert(b[i] == name[i] as u8);
            assert(encode_utf8(l)[i] == l[i] as u8);
        }
    }
}

/// An edit with a valid name of at most 65535 characters takes effect: a
/// removal drops the name's values, a set gives the name its one value
/// unless `http` refuses the value. The map is keyed by the name's ASCII
/// lower case.
pub proof fn lemma_valid_edit_takes_effect(m: Map<Seq<u8>, Seq<Seq<u8>>>, a: ActionView)
    requires
        valid_header_name(a.name),
        a.name.len() <= 65535,
    ensures
        apply_one(m, a) == (if a.op == HeaderOp::Remove {
            m.remove(encode_utf8(ascii_lower(a.name)))
        } else if value_ok(encode_utf8(a.value)) {
            m.insert(encode_utf8(ascii_lower(a.name)), seq![encode_utf8(a.value)])
        } else {
            m
        }),
{
    lemma_valid_name_accepted(a.name);
}

} // verus!
