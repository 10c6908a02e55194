//! Conflict-file naming and the plain-text name test.
//!
//! When the engine must keep two versions of a file alive it derives a new
//! name from the old one: `<name>-NAME-CONFLICT-<id>` for sibling name
//! collisions and `<name>-CONTENT-CONFLICT-<id>` for binary content
//! conflicts, where `<id>` is the file id in decimal. A document body is
//! merged line-by-line only when its name ends in `.md` or `.txt`.

use vstd::prelude::*;

use crate::types::dup_bytes;

verus! {

/// The decimal digits of `n`, most significant first, as ASCII bytes.
pub open spec fn dec_digits(n: nat) -> Seq<u8>
    decreases n,
{
    if n < 10 {
        seq![(48 + n) as u8]
    } else {
        dec_digits(n / 10).push((48 + n % 10) as u8)
    }
}

/// The bytes of `-NAME-CONFLICT-`.
pub open spec fn name_conflict_infix() -> Seq<u8> {
    seq![45u8, 78u8, 65u8, 77u8, 69u8, 45u8, 67u8, 79u8, 78u8, 70u8, 76u8, 73u8, 67u8, 84u8, 45u8]
}

/// The bytes of `-CONTENT-CONFLICT-`.
pub open spec fn content_conflict_infix() -> Seq<u8> {
    seq![
        45u8,
        67u8,
        79u8,
        78u8,
        84u8,
        69u8,
        78u8,
        84u8,
        45u8,
        67u8,
        79u8,
        78u8,
        70u8,
        76u8,
        73u8,
        67u8,
        84u8,
        45u8,
    ]
}

/// The name a sibling is renamed to when an incoming server file takes its
/// name.
pub open spec fn name_conflict_name(old_name: Seq<u8>, id: u64) -> Seq<u8> {
    old_name + name_conflict_infix() + dec_digits(id as nat)
}

/// The name of the fresh sibling that preserves the local bytes of a binary
/// content conflict.
pub open spec fn content_conflict_name(old_name: Seq<u8>, id: u64) -> Seq<u8> {
    old_name + content_conflict_infix() + dec_digits(id as nat)
}

/// Names with a recognized plain-text extension get a line-based three-way
/// content merge; all other documents are treated as opaque binaries.
pub open spec fn is_text_name(name: Seq<u8>) -> bool {
    ||| (name.len() >= 3 && name[name.len() - 3] == 46 && name[name.len() - 2] == 109
        && name[name.len() - 1] == 100)
    ||| (name.len() >= 4 && name[name.len() - 4] == 46 && name[name.len() - 3] == 116
        && name[name.len() - 2] == 120 && name[name.len() - 1] == 116)
}

/// Decides whether a name has a plain-text extension (`.md` or `.txt`).
pub fn has_text_extension(name: &Vec<u8>) -> (r: bool)
    ensures
        r == is_text_name(name@),
{
    let n = name.len();
    let md = n >= 3 && name[n - 3] == 46 && name[n - 2] == 109 && name[n - 1] == 100;
    let txt = n >= 4 && name[n - 4] == 46 && name[n - 3] == 116 && name[n - 2] == 120 && name[n
        - 1] == 116;
    md || txt
}

/// Appends the decimal rendering of `n` to `out`.
fn push_decimal(out: &mut Vec<u8>, n: u64)
    ensures
        final(out)@ == old(out)@ + dec_digits(n as nat),
{
    let mut tmp: Vec<u8> = Vec::new();
    let mut m: u64 = n;
    proof {
        assert(dec_digits(n as nat) =~= dec_digits(m as nat) + tmp@.reverse());
    }
    while m >= 10
        invariant
            dec_digits(n as nat) == dec_digits(m as nat) + tmp@.reverse(),
        decreases m,
    {
        let d: u8 = (48 + (m % 10)) as u8;
        tmp.push(d);
        let ghost m0 = m;
        m = m / 10;
        proof {
            assert(dec_digits(m0 as nat) =~= dec_digits(m as nat).push(d));
            assert(tmp@.reverse() =~= seq![d] + tmp@.drop_last().reverse());
            assert(dec_digits(n as nat) =~= dec_digits(m as nat) + tmp@.reverse());
        }
    }
    out.push((48 + (m % 10)) as u8);
    proof {
        assert(dec_digits(m as nat) =~= seq![(48 + (m % 10)) as u8]);
    }
    let mut i: usize = tmp.len();
    while i > 0
        invariant
            i <= tmp@.len(),
            out@ == old(out)@ + dec_digits(m as nat) + tmp@.subrange(i as int, tmp@.len() as int).reverse(),
        decreases i,
    {
        i = i - 1;
        out.push(tmp[i]);
        proof {
            assert(tmp@.subrange(i as int, tmp@.len() as int).reverse() =~= tmp@.subrange(
                i + 1,
                tmp@.len() as int,
            ).reverse().push(tmp@[i as int]));
            assert(out@ =~= old(out)@ + dec_digits(m as nat) + tmp@.subrange(
                i as int,
                tmp@.len() as int,
            ).reverse());
        }
    }
    proof {
        assert(tmp@.subrange(0, tmp@.len() as int) =~= tmp@);
        assert(out@ =~= old(out)@ + (dec_digits(m as nat) + tmp@.reverse()));
    }
}

/// Builds `<old_name>-NAME-CONFLICT-<id>`.
pub fn make_name_conflict_name(old_name: &Vec<u8>, id: u64) -> (r: Vec<u8>)
    ensures
        r@ == name_conflict_name(old_name@, id),
{
    let mut r = dup_bytes(old_name);
    r.push(45);
    r.push(78);
    r.push(65);
    r.push(77);
    r.push(69);
    r.push(45);
    r.push(67);
    r.push(79);
    r.push(78);
    r.push(70);
    r.push(76);
    r.push(73);
    r.push(67);
    r.push(84);
    r.push(45);
    proof {
        assert(r@ =~= old_name@ + name_conflict_infix());
    }
    push_decimal(&mut r, id);
    proof {
        assert(r@ =~= name_conflict_name(old_name@, id));
    }
    r
}

/// Builds `<old_name>-CONTENT-CONFLICT-<id>`.
pub fn make_content_conflict_name(old_name: &Vec<u8>, id: u64) -> (r: Vec<u8>)
    ensures
        r@ == content_conflict_name(old_name@, id),
{
    let mut r = dup_bytes(old_name);
    r.push(45);
    r.push(67);
    r.push(79);
    r.push(78);
    r.push(84);
    r.push(69);
    r.push(78);
    r.push(84);
    r.push(45);
    r.push(67);
    r.push(79);
    r.push(78);
    r.push(70);
    r.push(76);
    r.push(73);
    r.push(67);
    r.push(84);
    r.push(45);
    proof {
        assert(r@ =~= old_name@ + content_conflict_infix());
    }
    push_decimal(&mut r, id);
    proof {
        assert(r@ =~= content_conflict_name(old_name@, id));
    }
    r
}

/// A decimal rendering has at least one digit.
pub proof fn lemma_dec_digits_nonempty(n: nat)
    ensures
        dec_digits(n).len() >= 1,
    decreases n,
{
    if n >= 10 {
        lemma_dec_digits_nonempty(n / 10);
    }
}

} // verus!
