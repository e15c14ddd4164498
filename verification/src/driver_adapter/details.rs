//! What the adapter says of a text that a column cannot hold: the text, and why not.

use super::convert::{
    bound, clock_of_text, convert_value, day_of_text, decimal_of_text, from_text, is_from_text,
    item_at, octets_of, parse_clock, parse_day, parse_decimal, parse_uuid, raws, uuid_of_text, Raw,
    RawValue,
};
use super::duration::{duration_of_text, last_number, read_duration};
use crate::error::CodecError;
use crate::text::{both, char_text, from_utf8, joined};
use crate::value::{ColumnType, IpAddr, NativeType};
use crate::wire::bytes_slice;
use vstd::prelude::*;
use vstd::string::*;
use vstd::utf8::{decode_utf8, valid_utf8};

verus! {

/// What is said of a text that is no internet address.
pub const NO_ADDRESS: &'static str = "invalid IP address syntax";

/// A text in quotes, and why it is refused.
pub open spec fn quoted(text: Seq<char>, reason: Seq<char>) -> Seq<char> {
    " '"@ + text + ("': "@ + reason)
}

/// A text in quotes where it is refused, and why.
pub open spec fn refused<T>(text: Seq<char>, r: Result<T, Seq<char>>) -> Seq<char> {
    match r {
        Ok(_) => Seq::empty(),
        Err(reason) => quoted(text, reason),
    }
}

/// What is said of a text, behind the name of what it should spell.
pub open spec fn text_detail(text: Seq<char>, native: NativeType, has_address: bool) -> Seq<char> {
    match native {
        NativeType::Decimal => refused(text, decimal_of_text(text)),
        NativeType::Date => refused(text, day_of_text(text, "%Y-%m-%d"@)),
        NativeType::Time => refused(text, clock_of_text(text, "%-H:%-M:%-S"@)),
        NativeType::Duration => if duration_of_text(text) matches Err(CodecError::DurationNumber) {
            ": "@ + last_number(text)
        } else {
            Seq::empty()
        },
        NativeType::Inet => if has_address {
            Seq::empty()
        } else {
            quoted(text, NO_ADDRESS@)
        },
        _ => refused(text, uuid_of_text(text)),
    }
}

/// What is said of a value, behind the name of what it should be.
pub open spec fn value_detail(raw: Raw, bind: Option<ColumnType>, has_address: bool) -> Seq<char> {
    match (raw, bind) {
        (Raw::Bytes(type_code, data), Some(ColumnType::Native(native))) => if type_code == 0x000D
            && from_text(native) && valid_utf8(data) {
            text_detail(decode_utf8(data), native, has_address)
        } else {
            Seq::empty()
        },
        _ => Seq::empty(),
    }
}

/// The octets of the address at a position, if there is one.
pub open spec fn address_at(addresses: Seq<Option<IpAddr>>, k: int) -> Option<Seq<u8>> {
    match item_at(addresses, k) {
        Some(a) => octets_of(a),
        None => None,
    }
}

/// What is said of the first value, from the `k`-th on, that its column cannot hold.
pub open spec fn first_detail(
    s: Seq<Raw>,
    types: Seq<ColumnType>,
    addresses: Seq<Option<IpAddr>>,
    k: nat,
) -> Seq<char>
    decreases s.len() - k,
{
    if k >= s.len() {
        Seq::empty()
    } else {
        let address = address_at(addresses, k as int);
        match bound(s[k as int], item_at(types, k as int), address) {
            Err(_) => value_detail(s[k as int], item_at(types, k as int), address is Some),
            Ok(_) => first_detail(s, types, addresses, k + 1),
        }
    }
}

/// An empty text.
fn nothing() -> (r: String)
    ensures
        r@ == Seq::<char>::empty(),
{
    proof {
        reveal_strlit("");
    }
    assert(""@ =~= Seq::<char>::empty());
    "".to_owned()
}

/// The text of characters.
fn text_of(chars: &Vec<char>) -> (r: String)
    ensures
        r@ == chars@,
{
    let mut text: String = nothing();
    let mut i: usize = 0;
    assert(chars@.take(0) =~= Seq::empty());
    while i < chars.len()
        invariant
            i <= chars@.len(),
            text@ == chars@.take(i as int),
        decreases chars@.len() - i,
    {
        text = both(text.as_str(), char_text(chars[i]).as_str());
        assert(chars@.take(i + 1) =~= chars@.take(i as int) + seq![chars@[i as int]]);
        i = i + 1;
    }
    assert(chars@.take(i as int) =~= chars@);
    text
}

/// A text in quotes, and why it is refused.
fn quote(text: &str, reason: &str) -> (r: String)
    ensures
        r@ == quoted(text@, reason@),
{
    joined(" '", text, both("': ", reason).as_str())
}

/// A text in quotes where it is refused, and why.
fn refusal<T>(text: &str, result: Result<T, String>) -> (r: String)
    ensures
        match result {
            Ok(_) => r@ == Seq::<char>::empty(),
            Err(reason) => r@ == quoted(text@, reason@),
        },
{
    match result {
        Ok(_) => nothing(),
        Err(reason) => quote(text, reason.as_str()),
    }
}

/// What is said of a text, behind the name of what it should spell.
fn detail_of(text: &str, native: NativeType, has_address: bool) -> (r: String)
    requires
        from_text(native),
    ensures
        r@ == text_detail(text@, native, has_address),
{
    match native {
        NativeType::Decimal => refusal(text, parse_decimal(text)),
        NativeType::Date => refusal(text, parse_day(text, "%Y-%m-%d")),
        NativeType::Time => refusal(text, parse_clock(text, "%-H:%-M:%-S")),
        NativeType::Duration => match read_duration(text) {
            Err((CodecError::DurationNumber, number)) => both(": ", text_of(&number).as_str()),
            _ => nothing(),
        },
        NativeType::Inet => if has_address {
            nothing()
        } else {
            quote(text, NO_ADDRESS)
        },
        _ => refusal(text, parse_uuid(text)),
    }
}

/// What is said of a value, behind the name of what it should be.
fn bytes_detail(data: &[u8], type_code: u16, bind: Option<&ColumnType>, has_address: bool) -> (r:
    String)
    ensures
        r@ == value_detail(
            Raw::Bytes(type_code, data@),
            match bind {
                Some(t) => Some(*t),
                None => None,
            },
            has_address,
        ),
{
    if type_code == 0x000D {
        if let Some(ColumnType::Native(native)) = bind {
            if is_from_text(*native) {
                return match from_utf8(data) {
                    Some(text) => detail_of(text.as_str(), *native, has_address),
                    None => nothing(),
                };
            }
        }
    }
    nothing()
}

/// What is said of the first value that its column cannot hold.
pub fn failure_detail(
    raw_values: &Vec<RawValue>,
    bind_types: &Vec<ColumnType>,
    addresses: &Vec<Option<IpAddr>>,
) -> (r: String)
    ensures
        r@ == first_detail(raws(raw_values@), bind_types@, addresses@, 0),
{
    let ghost s = raws(raw_values@);
    let ghost all = first_detail(s, bind_types@, addresses@, 0);
    let mut k: usize = 0;
    while k < raw_values.len()
        invariant
            k <= raw_values@.len(),
            s == raws(raw_values@),
            all == first_detail(s, bind_types@, addresses@, 0),
            all == first_detail(s, bind_types@, addresses@, k as nat),
        decreases raw_values@.len() - k,
    {
        let bind: Option<&ColumnType> = if k < bind_types.len() {
            Some(&bind_types[k])
        } else {
            None
        };
        let address: Option<IpAddr> = if k < addresses.len() {
            addresses[k]
        } else {
            None
        };
        assert(s[k as int] == raw_values@[k as int]@);
        assert(octets_of(address) == address_at(addresses@, k as int));
        match &raw_values[k] {
            RawValue::Null { .. } => {},
            RawValue::Bytes { type_code, data } => {
                let bytes: &[u8] = bytes_slice(data);
                if convert_value(bytes, *type_code, bind, address).is_err() {
                    return bytes_detail(bytes, *type_code, bind, address.is_some());
                }
            },
        }
        k = k + 1;
    }
    nothing()
}

/// What is said of values that cannot be bound is said of the first such one,
/// and nothing is said where all can be.
pub proof fn law_first_refused_value_is_told(
    s: Seq<Raw>,
    types: Seq<ColumnType>,
    addresses: Seq<Option<IpAddr>>,
)
    ensures
        (forall|i: int|
            0 <= i < s.len() ==> bound(
                #[trigger] s[i],
                item_at(types, i),
                address_at(addresses, i),
            ) is Ok) ==> first_detail(s, types, addresses, 0).len() == 0,
        forall|i: int|
            0 <= i < s.len() && bound(
                #[trigger] s[i],
                item_at(types, i),
                address_at(addresses, i),
            ) is Err && (forall|j: int|
                0 <= j < i ==> bound(
                    #[trigger] s[j],
                    item_at(types, j),
                    address_at(addresses, j),
                ) is Ok) ==> first_detail(s, types, addresses, 0) == value_detail(
                s[i],
                item_at(types, i),
                address_at(addresses, i) is Some,
            ),
{
    if forall|i: int|
        0 <= i < s.len() ==> bound(
            #[trigger] s[i],
            item_at(types, i),
            address_at(addresses, i),
        ) is Ok {
        lemma_detail_from(s, types, addresses, s.len() as int, 0);
    }
    assert forall|i: int|
        0 <= i < s.len() && bound(
            #[trigger] s[i],
            item_at(types, i),
            address_at(addresses, i),
        ) is Err && (forall|j: int|
            0 <= j < i ==> bound(
                #[trigger] s[j],
                item_at(types, j),
                address_at(addresses, j),
            ) is Ok) implies first_detail(s, types, addresses, 0) == value_detail(
        s[i],
        item_at(types, i),
        address_at(addresses, i) is Some,
    ) by {
        lemma_detail_from(s, types, addresses, i, 0);
    }
}

/// Values that can be bound are passed over.
proof fn lemma_detail_from(
    s: Seq<Raw>,
    types: Seq<ColumnType>,
    addresses: Seq<Option<IpAddr>>,
    i: int,
    k: nat,
)
    requires
        k <= i <= s.len(),
        forall|j: int|
            0 <= j < i ==> bound(
                #[trigger] s[j],
                item_at(types, j),
                address_at(addresses, j),
            ) is Ok,
    ensures
        first_detail(s, types, addresses, k) == first_detail(s, types, addresses, i as nat),
    decreases i - k,
{
    if k < i {
        assert(bound(
            s[k as int],
            item_at(types, k as int),
            address_at(addresses, k as int),
        ) is Ok);
        lemma_detail_from(s, types, addresses, i, k + 1);
    }
}

} // verus!
