//! Targets that the user types in.

use crate::text::{
    chars_of, decimal, find_last, is_digit, last_position, lemma_decimal_reads_back,
    lemma_decimal_spells, lemma_last_position, lemma_trimmed_of_padded, parse_u16, string_of,
    trim_bounds, trimmed, unsigned_number, white_space,
};
use vstd::prelude::*;

verus! {

/// What a typed target stands for.
pub enum TargetView {
    /// Nothing was typed.
    Empty,
    /// What follows the colon is not a port.
    BadPort,
    /// A host and a port.
    Target { host: Seq<char>, port: u16 },
}

/// The meaning of a typed target. White space around it does not count. With
/// exactly one colon it is a host and a port; otherwise it is a host alone and
/// the default port applies.
pub open spec fn manual_target(raw: Seq<char>, default_port: u16) -> TargetView {
    let value = trimmed(raw);
    let colon = last_position(value, ':');
    if value.len() == 0 {
        TargetView::Empty
    } else if colon >= 0 && last_position(value.take(colon), ':') < 0 {
        match unsigned_number(value.skip(colon + 1), 65536) {
            Some(port) => TargetView::Target {
                host: trimmed(value.take(colon)),
                port: port as u16,
            },
            None => TargetView::BadPort,
        }
    } else {
        TargetView::Target { host: value, port: default_port }
    }
}

/// Takes a typed target apart into a host and a port.
pub fn parse_manual_target(raw: &str, default_port: u16) -> (r: Result<(String, u16), String>)
    ensures
        match manual_target(raw@, default_port) {
            TargetView::Empty => r matches Err(e) && e@ == "请输入目标 IP"@,
            TargetView::BadPort => r matches Err(e) && e@ == "端口格式不正确"@,
            TargetView::Target { host, port } => r matches Ok(t) && t.0@ == host && t.1 == port,
        },
{
    let all = chars_of(raw);
    let (from, to) = trim_bounds(&all, 0, all.len());
    let ghost value = trimmed(raw@);
    assert(all@.subrange(0, all.len() as int) =~= raw@);
    if from == to {
        return Err("请输入目标 IP".to_owned());
    }
    let text = string_of(&all, from, to);
    let chars = chars_of(&text);
    assert(chars@ == value);
    assert(chars@.take(chars.len() as int) =~= chars@);
    match find_last(&chars, chars.len(), ':') {
        Some(colon) => {
            match find_last(&chars, colon, ':') {
                Some(_) => Ok((text, default_port)),
                None => {
                    assert(chars@.skip(colon + 1) == value.skip(colon + 1));
                    match parse_u16(&chars, colon + 1) {
                        Some(port) => {
                            let (a, b) = trim_bounds(&chars, 0, colon);
                            assert(chars@.subrange(0, colon as int) =~= value.take(colon as int));
                            Ok((string_of(&chars, a, b), port))
                        },
                        None => Err("端口格式不正确".to_owned()),
                    }
                },
            }
        },
        None => Ok((text, default_port)),
    }
}

/// A text that neither starts nor ends with white space.
pub open spec fn tight(s: Seq<char>) -> bool {
    s.len() > 0 && !white_space(s.first()) && !white_space(s.last())
}

/// A host and a port, written with a colon between them, are read back as they
/// were, whatever the default port. The host may be empty.
pub proof fn lemma_target_round_trip(host: Seq<char>, port: u16, default_port: u16)
    requires
        host.len() == 0 || tight(host),
        forall|i: int| 0 <= i < host.len() ==> #[trigger] host[i] != ':',
    ensures
        manual_target(host + seq![':'] + decimal(port as nat), default_port)
            == (TargetView::Target { host, port }),
{
    let digits = decimal(port as nat);
    let raw = host + seq![':'] + digits;
    lemma_decimal_spells(port as nat);
    lemma_decimal_reads_back(port as nat, 65536);
    assert(raw.first() == (if host.len() == 0 {
        ':'
    } else {
        host.first()
    }));
    assert(raw.last() == digits[digits.len() - 1]);
    assert(is_digit(digits[digits.len() - 1]));
    assert(trimmed(raw) == raw);
    let n = host.len() as int;
    lemma_last_position(raw, ':');
    let colon = last_position(raw, ':');
    assert(raw[n] == ':');
    assert forall|i: int| n < i < raw.len() implies raw[i] != ':' by {
        assert(raw[i] == digits[i - n - 1]);
        assert(is_digit(digits[i - n - 1]));
    }
    assert(colon == n);
    assert(raw.take(n) =~= host);
    lemma_last_position(host, ':');
    assert(raw.skip(n + 1) =~= digits);
}

/// A text with more than one colon, such as an IPv6 address, is a host alone.
pub proof fn lemma_target_many_colons(raw: Seq<char>, default_port: u16, i: int, j: int)
    requires
        tight(raw),
        0 <= i < j < raw.len(),
        raw[i] == ':',
        raw[j] == ':',
    ensures
        manual_target(raw, default_port) == (TargetView::Target { host: raw, port: default_port }),
{
    lemma_last_position(raw, ':');
    let colon = last_position(raw, ':');
    assert(colon >= j);
    lemma_last_position(raw.take(colon), ':');
    assert(raw.take(colon)[i] == ':');
}

// ---------------------------------------------------------------------------
// What typed targets stand for
// ---------------------------------------------------------------------------

/// White space around a typed target does not count, and with nothing else
/// nothing was typed.
pub proof fn lemma_target_padding(
    before: Seq<char>,
    raw: Seq<char>,
    after: Seq<char>,
    default_port: u16,
)
    requires
        forall|i: int| 0 <= i < before.len() ==> white_space(#[trigger] before[i]),
        forall|i: int| 0 <= i < after.len() ==> white_space(#[trigger] after[i]),
        raw.len() == 0 || tight(raw),
    ensures
        manual_target(before + raw + after, default_port) == manual_target(raw, default_port),
        raw.len() == 0 ==> manual_target(before + raw + after, default_port) is Empty,
        raw.len() > 0 ==> !(manual_target(before + raw + after, default_port) is Empty),
{
    lemma_trimmed_of_padded(before, raw, after);
    lemma_trimmed_of_padded(Seq::empty(), raw, Seq::empty());
    assert(Seq::<char>::empty() + raw + Seq::<char>::empty() =~= raw);
}

/// A text without a colon is a host, to which the default port applies.
pub proof fn lemma_target_without_port(raw: Seq<char>, default_port: u16)
    requires
        tight(raw),
        !raw.contains(':'),
    ensures
        manual_target(raw, default_port) == (TargetView::Target { host: raw, port: default_port }),
{
    lemma_trimmed_of_padded(Seq::empty(), raw, Seq::empty());
    assert(Seq::<char>::empty() + raw + Seq::<char>::empty() =~= raw);
    lemma_last_position(raw, ':');
    if last_position(raw, ':') >= 0 {
        assert(raw.contains(raw[last_position(raw, ':')]));
    }
}

/// With one colon, what is before it is the host, without white space at its end,
/// and what is after it the port; where that is not a number of sixteen bits,
/// the target is refused.
pub proof fn lemma_target_with_port(
    host: Seq<char>,
    gap: Seq<char>,
    port: Seq<char>,
    default_port: u16,
)
    requires
        tight(host) && !host.contains(':'),
        forall|i: int| 0 <= i < gap.len() ==> white_space(#[trigger] gap[i]) && gap[i] != ':',
        tight(port) && !port.contains(':'),
    ensures
        ({
            let r = manual_target(host + gap + seq![':'] + port, default_port);
            &&& unsigned_number(port, 65536) is None ==> r is BadPort
            &&& unsigned_number(port, 65536) matches Some(n) ==> r == (TargetView::Target {
                host,
                port: n as u16,
            })
        }),
{
    let raw = host + gap + seq![':'] + port;
    lemma_trimmed_of_padded(Seq::empty(), raw, Seq::empty());
    assert(raw.first() == host.first());
    assert(raw.last() == port.last());
    assert(Seq::<char>::empty() + raw + Seq::<char>::empty() =~= raw);
    let n = (host.len() + gap.len()) as int;
    lemma_last_position(raw, ':');
    assert(raw[n] == ':');
    assert forall|i: int| n < i < raw.len() implies raw[i] != ':' by {
        assert(raw[i] == port[i - n - 1]);
        assert(port.contains(port[i - n - 1]));
    }
    assert(last_position(raw, ':') == n);
    assert(raw.take(n) =~= host + gap);
    assert(raw.skip(n + 1) =~= port);
    lemma_last_position(host + gap, ':');
    let p = last_position(host + gap, ':');
    if p >= 0 {
        if p < host.len() {
            assert(host.contains(host[p]));
        } else {
            assert(gap[p - host.len()] == ':');
        }
    }
    lemma_trimmed_of_padded(Seq::empty(), host, gap);
    assert(Seq::<char>::empty() + host + gap =~= host + gap);
}

} // verus!
