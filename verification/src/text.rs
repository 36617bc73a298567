//! Building lines of text as the bytes that go out over the serial port.

use vstd::prelude::*;

use crate::body::{DeviceClass, Rights, ThreadState};
use crate::edge::WaitRole;
use crate::id::{EdgeId, NodeId};

verus! {

/// The bytes of a string.
pub open spec fn lit(s: Seq<char>) -> Seq<u8> {
    vstd::utf8::encode_utf8(s)
}

/// A number in decimal.
pub open spec fn dec(n: nat) -> Seq<u8>
    decreases n,
{
    if n < 10 {
        seq![(0x30 + n) as u8]
    } else {
        dec(n / 10).push((0x30 + n % 10) as u8)
    }
}

/// One hexadecimal digit.
pub open spec fn digit(d: int) -> u8 {
    if d < 10 {
        (0x30 + d) as u8
    } else {
        (0x57 + d) as u8
    }
}

/// A number in hexadecimal, with at least `width` digits.
pub open spec fn hex_digits(n: nat, width: nat) -> Seq<u8>
    decreases n, width,
{
    if n == 0 && width == 0 {
        Seq::empty()
    } else {
        hex_digits(
            n / 16,
            (if width > 0 {
                width - 1
            } else {
                0
            }) as nat,
        ).push(digit((n % 16) as int))
    }
}

/// The same with the usual prefix. Zero has one digit even without padding.
pub open spec fn hex(n: nat, width: nat) -> Seq<u8> {
    lit("0x"@) + hex_digits(
        n,
        if width == 0 {
            1
        } else {
            width
        },
    )
}

pub(crate) fn push_str(out: &mut Vec<u8>, s: &str)
    ensures
        final(out)@ == old(out)@ + lit(s@),
{
    let b = s.as_bytes();
    push_bytes(out, b);
}

pub(crate) fn push_bytes(out: &mut Vec<u8>, b: &[u8])
    ensures
        final(out)@ == old(out)@ + b@,
{
    let ghost o = out@;
    let mut i: usize = 0;
    assert(out@ =~= o + b@.take(0));
    while i < b.len()
        invariant
            i <= b@.len(),
            o == old(out)@,
            out@ == o + b@.take(i as int),
        decreases b@.len() - i,
    {
        out.push(b[i]);
        i = i + 1;
        assert(out@ =~= o + b@.take(i as int));
    }
    assert(b@.take(b@.len() as int) =~= b@);
}

pub(crate) fn push_dec(out: &mut Vec<u8>, n: u64)
    ensures
        final(out)@ == old(out)@ + dec(n as nat),
    decreases n,
{
    if n < 10 {
        out.push((0x30 + n) as u8);
        assert(out@ =~= old(out)@ + dec(n as nat));
    } else {
        push_dec(out, n / 10);
        out.push((0x30 + n % 10) as u8);
        assert(out@ =~= old(out)@ + dec(n as nat));
    }
}

fn push_hex_digits(out: &mut Vec<u8>, n: u64, width: u64)
    ensures
        final(out)@ == old(out)@ + hex_digits(n as nat, width as nat),
    decreases n, width,
{
    if n == 0 && width == 0 {
        assert(out@ =~= old(out)@ + hex_digits(0, 0));
        return;
    }
    let less: u64 = if width > 0 {
        width - 1
    } else {
        0
    };
    push_hex_digits(out, n / 16, less);
    let d: u64 = n % 16;
    let c: u8 = if d < 10 {
        (0x30 + d) as u8
    } else {
        (0x57 + d) as u8
    };
    out.push(c);
    assert(out@ =~= old(out)@ + hex_digits(n as nat, width as nat));
}

pub(crate) fn push_hex(out: &mut Vec<u8>, n: u64, width: u64)
    ensures
        final(out)@ == old(out)@ + hex(n as nat, width as nat),
{
    push_str(out, "0x");
    let w: u64 = if width == 0 {
        1
    } else {
        width
    };
    push_hex_digits(out, n, w);
    assert(out@ =~= old(out)@ + hex(n as nat, width as nat));
}

// -------------------------------------------------------------------- ids ---

/// How a node id is written.
pub open spec fn node_text(id: NodeId) -> Seq<u8> {
    if id.is_null() {
        lit("NodeId(null)"@)
    } else {
        (match id.kind() {
            Some(k) => lit(k.spec_name()),
            None => lit("Node?"@) + dec(id.kind_raw() as nat),
        }) + lit("#"@) + dec(id.idx() as nat) + lit("."@) + dec(id.generation() as nat)
    }
}

pub fn push_node(out: &mut Vec<u8>, id: NodeId)
    ensures
        final(out)@ == old(out)@ + node_text(id),
{
    if id.is_null() {
        push_str(out, "NodeId(null)");
        return;
    }
    match id.kind() {
        Some(k) => push_str(out, k.name()),
        None => {
            push_str(out, "Node?");
            push_dec(out, id.kind_raw() as u64);
        },
    }
    push_str(out, "#");
    push_dec(out, id.idx() as u64);
    push_str(out, ".");
    push_dec(out, id.generation() as u64);
    assert(out@ =~= old(out)@ + node_text(id));
}

/// How an edge id is written.
pub open spec fn edge_text(id: EdgeId) -> Seq<u8> {
    if id.is_null() {
        lit("EdgeId(null)"@)
    } else {
        lit("Edge#"@) + dec(id.idx() as nat) + lit("."@) + dec(id.generation() as nat)
    }
}

pub fn push_edge(out: &mut Vec<u8>, id: EdgeId)
    ensures
        final(out)@ == old(out)@ + edge_text(id),
{
    if id.is_null() {
        push_str(out, "EdgeId(null)");
        return;
    }
    push_str(out, "Edge#");
    push_dec(out, id.idx() as u64);
    push_str(out, ".");
    push_dec(out, id.generation() as u64);
    assert(out@ =~= old(out)@ + edge_text(id));
}

/// The letter of right number `i`.
pub open spec fn right_letter(i: int) -> u8 {
    if i == 0 {
        0x52
    } else if i == 1 {
        0x57
    } else if i == 2 {
        0x4d
    } else if i == 3 {
        0x73
    } else if i == 4 {
        0x72
    } else if i == 5 {
        0x67
    } else if i == 6 {
        0x6c
    } else {
        0x41
    }
}

/// The letters of the first `n` rights that are there.
pub open spec fn right_letters(bits: u32, n: int) -> Seq<u8>
    decreases n,
{
    if n <= 0 {
        Seq::empty()
    } else if bits & (1u32 << (n - 1) as u32) != 0 {
        right_letters(bits, n - 1).push(right_letter(n - 1))
    } else {
        right_letters(bits, n - 1)
    }
}

/// How rights are written: `R W M s r g l A` for those that are there.
pub open spec fn rights_text(r: Rights) -> Seq<u8> {
    if r.0 == 0 {
        lit("-"@)
    } else {
        right_letters(r.0, 8)
    }
}

/// Append the letters of the rights that are there.
pub(crate) fn push_letters(out: &mut Vec<u8>, bits: u32)
    ensures
        final(out)@ == old(out)@ + right_letters(bits, 8),
{
    let ghost o = out@;
    let mut i: u32 = 0;
    assert(out@ =~= o + right_letters(bits, 0));
    while i < 8
        invariant
            i <= 8,
            o == old(out)@,
            out@ == o + right_letters(bits, i as int),
        decreases 8 - i,
    {
        if bits & (1u32 << i) != 0 {
            let c: u8 = if i == 0 {
                0x52
            } else if i == 1 {
                0x57
            } else if i == 2 {
                0x4d
            } else if i == 3 {
                0x73
            } else if i == 4 {
                0x72
            } else if i == 5 {
                0x67
            } else if i == 6 {
                0x6c
            } else {
                0x41
            };
            out.push(c);
        }
        i = i + 1;
        assert(out@ =~= o + right_letters(bits, i as int));
    }
}

pub fn push_rights(out: &mut Vec<u8>, r: Rights)
    ensures
        final(out)@ == old(out)@ + rights_text(r),
{
    if r.0 == 0 {
        push_str(out, "-");
    } else {
        push_letters(out, r.0);
    }
}

pub open spec fn state_text(s: ThreadState) -> Seq<u8> {
    match s {
        ThreadState::Inert => lit("Inert"@),
        ThreadState::Ready => lit("Ready"@),
        ThreadState::Running => lit("Running"@),
        ThreadState::Blocked => lit("Blocked"@),
        ThreadState::Dying => lit("Dying"@),
    }
}

pub(crate) fn push_state(out: &mut Vec<u8>, s: ThreadState)
    ensures
        final(out)@ == old(out)@ + state_text(s),
{
    match s {
        ThreadState::Inert => push_str(out, "Inert"),
        ThreadState::Ready => push_str(out, "Ready"),
        ThreadState::Running => push_str(out, "Running"),
        ThreadState::Blocked => push_str(out, "Blocked"),
        ThreadState::Dying => push_str(out, "Dying"),
    }
}

pub open spec fn class_text(c: DeviceClass) -> Seq<u8> {
    match c {
        DeviceClass::Unclassified => lit("None"@),
        DeviceClass::SerialConsole => lit("SerialConsole"@),
    }
}

pub(crate) fn push_class(out: &mut Vec<u8>, c: DeviceClass)
    ensures
        final(out)@ == old(out)@ + class_text(c),
{
    match c {
        DeviceClass::Unclassified => push_str(out, "None"),
        DeviceClass::SerialConsole => push_str(out, "SerialConsole"),
    }
}

pub open spec fn role_text(r: WaitRole) -> Seq<u8> {
    match r {
        WaitRole::Send => lit("Send"@),
        WaitRole::Recv => lit("Recv"@),
    }
}

pub(crate) fn push_role(out: &mut Vec<u8>, r: WaitRole)
    ensures
        final(out)@ == old(out)@ + role_text(r),
{
    match r {
        WaitRole::Send => push_str(out, "Send"),
        WaitRole::Recv => push_str(out, "Recv"),
    }
}

// ------------------------------------------------------------------ quotes ---

/// A string as `core::fmt::Debug` writes it: in quotes, with escapes.
pub uninterp spec fn quoted(s: Seq<char>) -> Seq<char>;

/// `core::fmt::Debug` for `str`, through `format!`: the string in quotes, with
/// whatever needs it escaped. What the escapes are is left to the formatter;
/// all that is said is that the same string is always written the same way.
#[verifier::external_body]
pub(crate) fn debug_str(s: &str) -> (r: String)
    ensures
        r@ == quoted(s@),
{
    format!("{:?}", s)
}

} // verus!
