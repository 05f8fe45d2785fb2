//! Network destinations and the addresses that untrusted programs may not reach.

use crate::ast::views;
use crate::host::invalid_reply;
use crate::text::{chars_of, join2, text_of, Str};
use crate::value::{fail, lemma_value_view, told_unit, Val, ZapValue};
use crate::world::{ask, ExecutionContext, World};
use vstd::prelude::*;

verus! {

/// An internet address: four bytes, or eight groups of sixteen bits.
#[derive(Clone, Copy, Debug, PartialEq, Eq, Structural)]
pub enum Address {
    V4 { a: u8, b: u8, c: u8, d: u8 },
    V6 { s0: u16, s1: u16, s2: u16, s3: u16, s4: u16, s5: u16, s6: u16, s7: u16 },
}

/// Loopback, private, link local, unspecified, broadcast and multicast addresses.
pub open spec fn blocked_v4(a: u8, b: u8, c: u8, d: u8) -> bool {
    ||| a == 127
    ||| a == 10
    ||| (a == 172 && 16 <= b <= 31)
    ||| (a == 192 && b == 168)
    ||| (a == 169 && b == 254)
    ||| (a == 0 && b == 0 && c == 0 && d == 0)
    ||| (a == 255 && b == 255 && c == 255 && d == 255)
    ||| 224 <= a <= 239
}

/// Whether an address may not be reached by an untrusted program. An address that stands for an
/// older one is judged as that one is; loopback, unspecified, multicast, unique local and link
/// local addresses are blocked.
pub open spec fn blocked(address: Address) -> bool {
    match address {
        Address::V4 { a, b, c, d } => blocked_v4(a, b, c, d),
        Address::V6 { s0, s1, s2, s3, s4, s5, s6, s7 } => {
            ||| (s0 == 0 && s1 == 0 && s2 == 0 && s3 == 0 && s4 == 0 && s5 == 0xffff && blocked_v4(
                (s6 / 256) as u8,
                (s6 % 256) as u8,
                (s7 / 256) as u8,
                (s7 % 256) as u8,
            ))
            ||| (s0 == 0 && s1 == 0 && s2 == 0 && s3 == 0 && s4 == 0 && s5 == 0 && s6 == 0 && s7
                <= 1)
            ||| s0 >= 0xff00
            ||| 0xfc00 <= s0 <= 0xfdff
            ||| 0xfe80 <= s0 <= 0xfebf
        },
    }
}

fn v4_is_blocked(a: u8, b: u8, c: u8, d: u8) -> (r: bool)
    ensures
        r == blocked_v4(a, b, c, d),
{
    a == 127 || a == 10 || (a == 172 && 16 <= b && b <= 31) || (a == 192 && b == 168) || (a == 169
        && b == 254) || (a == 0 && b == 0 && c == 0 && d == 0) || (a == 255 && b == 255 && c == 255
        && d == 255) || (224 <= a && a <= 239)
}

pub fn blocked_network_ip(address: &Address) -> (r: bool)
    ensures
        r == blocked(*address),
{
    match *address {
        Address::V4 { a, b, c, d } => v4_is_blocked(a, b, c, d),
        Address::V6 { s0, s1, s2, s3, s4, s5, s6, s7 } => {
            let zeros = s0 == 0 && s1 == 0 && s2 == 0 && s3 == 0 && s4 == 0;
            (zeros && s5 == 0xffff && v4_is_blocked(
                (s6 / 256) as u8,
                (s6 % 256) as u8,
                (s7 / 256) as u8,
                (s7 % 256) as u8,
            )) || (zeros && s5 == 0 && s6 == 0 && s7 <= 1) || s0 >= 0xff00 || (0xfc00 <= s0 && s0
                <= 0xfdff) || (0xfe80 <= s0 && s0 <= 0xfebf)
        },
    }
}

/// A number of the language as a part of an address.
pub open spec fn part(v: Val) -> int {
    match v {
        Val::Number(n) => n as int,
        _ => -1,
    }
}

/// The address that a list of numbers denotes, behind its text form.
pub open spec fn address_of(parts: Seq<Val>) -> Option<Address> {
    if parts.len() == 5 && forall|i: int|
        1 <= i < 5 ==> 0 <= part(#[trigger] parts[i]) <= 255 {
        Some(
            Address::V4 {
                a: part(parts[1]) as u8,
                b: part(parts[2]) as u8,
                c: part(parts[3]) as u8,
                d: part(parts[4]) as u8,
            },
        )
    } else if parts.len() == 9 && forall|i: int|
        1 <= i < 9 ==> 0 <= part(#[trigger] parts[i]) <= 65535 {
        Some(
            Address::V6 {
                s0: part(parts[1]) as u16,
                s1: part(parts[2]) as u16,
                s2: part(parts[3]) as u16,
                s3: part(parts[4]) as u16,
                s4: part(parts[5]) as u16,
                s5: part(parts[6]) as u16,
                s6: part(parts[7]) as u16,
                s7: part(parts[8]) as u16,
            },
        )
    } else {
        None
    }
}

/// Judges the addresses from number `i` on: each is a list of its text form and its parts.
pub open spec fn judged(addresses: Seq<Val>, i: nat) -> Result<(), Str>
    decreases addresses.len() - i,
{
    if i >= addresses.len() {
        Ok(())
    } else {
        match addresses[i as int] {
            Val::List(parts) => match address_of(parts) {
                None => Err(invalid_reply("network destination"@)),
                Some(address) => if blocked(address) {
                    match parts[0] {
                        Val::Text(shown) => Err(
                            "network destination is blocked in untrusted mode: "@ + shown,
                        ),
                        _ => Err(invalid_reply("network destination"@)),
                    }
                } else {
                    judged(addresses, i + 1)
                },
            },
            _ => Err(invalid_reply("network destination"@)),
        }
    }
}

/// The first position at or after `i` that holds no opening bracket.
pub open spec fn brackets_end(s: Str, i: int) -> int
    decreases s.len() - i,
{
    if 0 <= i < s.len() && s[i] == '[' {
        brackets_end(s, i + 1)
    } else {
        i
    }
}

/// The end of what is left of `s[..i]` without the closing brackets at its end.
pub open spec fn brackets_start(s: Str, i: int) -> int
    decreases i,
{
    if 0 < i <= s.len() && s[i - 1] == ']' {
        brackets_start(s, i - 1)
    } else {
        i
    }
}

/// A host name without the brackets around it.
pub open spec fn bare_host(host: Str) -> Str {
    let rest = host.skip(brackets_end(host, 0));
    rest.take(brackets_start(rest, rest.len() as int))
}

fn without_brackets(host: &str) -> (r: String)
    ensures
        r@ == bare_host(host@),
{
    let v = chars_of(host);
    let mut start: usize = 0;
    while start < v.len() && v[start] == '['
        invariant
            start <= v@.len(),
            brackets_end(v@, 0) == brackets_end(v@, start as int),
        decreases v.len() - start,
    {
        start += 1;
    }
    let ghost rest = v@.skip(start as int);
    let mut end: usize = v.len();
    while end > start && v[end - 1] == ']'
        invariant
            start <= end <= v@.len(),
            rest == v@.skip(start as int),
            brackets_start(rest, rest.len() as int) == brackets_start(rest, end - start),
        decreases end,
    {
        assert(rest[end - start - 1] == v@[end - 1]);
        end -= 1;
    }
    proof {
        if end > start {
            assert(rest[end - start - 1] == v@[end - 1]);
        }
    }
    let r = text_of(&v, start, end);
    assert(r@ =~= rest.take(end - start));
    r
}

/// The addresses of a destination, where it has to be looked at: in restricted mode the host
/// resolves it, and a blocked address refuses it.
pub open spec fn destination(host: Str, port: u16, restricted: bool, w: World) -> (
    Result<Option<Seq<Val>>, Str>,
    World,
) {
    if !restricted {
        (Ok(None), w)
    } else {
        let (reply, after) = ask(
            w,
            "resolve_host"@,
            seq![Val::Text(bare_host(host)), Val::Number(port as i64)],
        );
        match reply {
            Err(error) => (Err("network destination could not be resolved: "@ + error), after),
            Ok(Val::List(addresses)) => if addresses.len() == 0 {
                (Err("network destination did not resolve to an address"@), after)
            } else {
                match judged(addresses, 0) {
                    Err(error) => (Err(error), after),
                    Ok(_) => (Ok(Some(addresses)), after),
                }
            },
            Ok(_) => (Err(invalid_reply("network destination"@)), after),
        }
    }
}

fn read_part(v: &ZapValue, max: i64) -> (r: Option<u16>)
    requires
        0 <= max <= 65535,
    ensures
        match r {
            Some(n) => part(v@) == n && n <= max,
            None => !(0 <= part(v@) <= max),
        },
{
    match v {
        ZapValue::Number(n) => if 0 <= *n && *n <= max {
            Some(*n as u16)
        } else {
            None
        },
        _ => None,
    }
}

fn read_parts(parts: &Vec<ZapValue>, max: i64) -> (r: Option<Vec<u16>>)
    requires
        0 <= max <= 65535,
        parts@.len() >= 1,
    ensures
        match r {
            Some(v) => v@.len() == parts@.len() - 1 && forall|i: int|
                1 <= i < parts@.len() ==> part(#[trigger] views(parts@)[i]) == v@[i - 1] && v@[i
                    - 1] <= max,
            None => exists|i: int|
                1 <= i < parts@.len() && !(0 <= part(#[trigger] views(parts@)[i]) <= max),
        },
{
    let mut out: Vec<u16> = Vec::new();
    let mut i: usize = 1;
    while i < parts.len()
        invariant
            1 <= i <= parts@.len(),
            0 <= max <= 65535,
            out@.len() == i - 1,
            forall|k: int|
                1 <= k < i ==> part(#[trigger] views(parts@)[k]) == out@[k - 1] && out@[k - 1]
                    <= max,
        decreases parts.len() - i,
    {
        assert(views(parts@)[i as int] == parts@[i as int]@);
        match read_part(&parts[i], max) {
            Some(n) => out.push(n),
            None => {
                assert(!(0 <= part(views(parts@)[i as int]) <= max));
                return None;
            },
        }
        i += 1;
    }
    Some(out)
}

fn read_address(parts: &Vec<ZapValue>) -> (r: Option<Address>)
    ensures
        r == address_of(views(parts@)),
{
    if parts.len() == 5 {
        match read_parts(parts, 255) {
            Some(v) => {
                proof {
                    let p = views(parts@);
                    assert(part(p[1]) == v@[0] && part(p[2]) == v@[1] && part(p[3]) == v@[2]
                        && part(p[4]) == v@[3]);
                }
                Some(
                    Address::V4 { a: v[0] as u8, b: v[1] as u8, c: v[2] as u8, d: v[3] as u8 },
                )
            },
            None => None,
        }
    } else if parts.len() == 9 {
        match read_parts(parts, 65535) {
            Some(v) => {
                proof {
                    let p = views(parts@);
                    assert(part(p[1]) == v@[0] && part(p[2]) == v@[1] && part(p[3]) == v@[2]
                        && part(p[4]) == v@[3]);
                    assert(part(p[5]) == v@[4] && part(p[6]) == v@[5] && part(p[7]) == v@[6]
                        && part(p[8]) == v@[7]);
                }
                Some(
                    Address::V6 {
                        s0: v[0],
                        s1: v[1],
                        s2: v[2],
                        s3: v[3],
                        s4: v[4],
                        s5: v[5],
                        s6: v[6],
                        s7: v[7],
                    },
                )
            },
            None => None,
        }
    } else {
        None
    }
}

fn judge_addresses(addresses: &Vec<ZapValue>) -> (r: Result<(), String>)
    ensures
        told_unit(r) == judged(views(addresses@), 0),
{
    let mut i: usize = 0;
    while i < addresses.len()
        invariant
            i <= addresses@.len(),
            judged(views(addresses@), 0) == judged(views(addresses@), i as nat),
        decreases addresses.len() - i,
    {
        proof {
            lemma_value_view(&addresses@[i as int]);
        }
        match &addresses[i] {
            ZapValue::List(parts) => match read_address(parts) {
                None => {
                    return Err(join2("network destination", " failed: invalid host reply"));
                },
                Some(address) => {
                    if blocked_network_ip(&address) {
                        return match &parts[0] {
                            ZapValue::Text(shown) => Err(
                                join2(
                                    "network destination is blocked in untrusted mode: ",
                                    shown.as_str(),
                                ),
                            ),
                            _ => Err(
                                join2("network destination", " failed: invalid host reply"),
                            ),
                        };
                    }
                },
            },
            _ => {
                return Err(join2("network destination", " failed: invalid host reply"));
            },
        }
        i += 1;
    }
    Ok(())
}

pub open spec fn told_addresses(r: Result<Option<Vec<ZapValue>>, String>) -> Result<
    Option<Seq<Val>>,
    Str,
> {
    match r {
        Ok(Some(addresses)) => Ok(Some(views(addresses@))),
        Ok(None) => Ok(None),
        Err(error) => Err(error@),
    }
}

pub fn resolved_network_destination_for_mode(
    host: &str,
    port: u16,
    restricted: bool,
    context: &mut ExecutionContext,
) -> (r: Result<Option<Vec<ZapValue>>, String>)
    ensures
        (told_addresses(r), final(context)@) == destination(
            host@,
            port,
            restricted,
            old(context)@,
        ),
{
    broadcast use lemma_value_view;

    if !restricted {
        return Ok(None);
    }
    let mut arguments: Vec<ZapValue> = Vec::new();
    arguments.push(ZapValue::Text(without_brackets(host)));
    arguments.push(ZapValue::Number(port as i64));
    assert(views(arguments@) =~= seq![Val::Text(bare_host(host@)), Val::Number(port as i64)]);
    match context.ask("resolve_host", arguments) {
        Err(error) => Err(join2("network destination could not be resolved: ", error.as_str())),
        Ok(ZapValue::List(addresses)) => {
            if addresses.len() == 0 {
                return fail("network destination did not resolve to an address");
            }
            match judge_addresses(&addresses) {
                Err(error) => Err(error),
                Ok(_) => Ok(Some(addresses)),
            }
        },
        Ok(_) => Err(join2("network destination", " failed: invalid host reply")),
    }
}

/// Whether a destination may be reached in a mode.
pub fn validate_network_destination_for_mode(
    host: &str,
    port: u16,
    restricted: bool,
    context: &mut ExecutionContext,
) -> (r: Result<(), String>)
    ensures
        told_unit(r) == (match destination(host@, port, restricted, old(context)@).0 {
            Ok(_) => Ok(()),
            Err(error) => Err(error),
        }),
        final(context)@ == destination(host@, port, restricted, old(context)@).1,
{
    match resolved_network_destination_for_mode(host, port, restricted, context) {
        Ok(_) => Ok(()),
        Err(error) => Err(error),
    }
}

} // verus!
