//! The names under which uploaded photos are stored.
//!
//! A photo is stored under a number and the extension of the name that it
//! was uploaded with, after that name was cleaned by the `sanitize_filename`
//! crate. A name without a dot has no extension, and such a file is left out.

use vstd::prelude::*;
use vstd::slice::slice_subrange;
use vstd::slice::slice_to_vec;
use vstd::utf8::encode_utf8;
use crate::codec::append;
use crate::header::decimal;

verus! {

/// The byte that parts a name from its extension: a full stop.
pub const DOT: u8 = 46;

/// What `sanitize_filename::sanitize_with_options` makes of `name`, with the
/// rules for Windows off, truncation on and nothing put in the place of what
/// is taken out.
pub uninterp spec fn sanitized(name: Seq<char>) -> Seq<char>;

/// Cleans a file name.
///
/// Trusted: calls `sanitize_filename::sanitize_with_options` with the
/// options named above, which are those of `sanitize` on every system but
/// Windows; the contract names its result.
#[verifier::external_body]
fn sanitize(name: &str) -> (clean: String)
    ensures
        clean@ == sanitized(name@),
{
    sanitize_filename::sanitize_with_options(
        name,
        sanitize_filename::Options { windows: false, truncate: true, replacement: "" },
    )
}

/// Whether the last dot of `name` stands at index `i`.
pub open spec fn last_dot_at(name: Seq<u8>, i: int) -> bool {
    &&& 0 <= i < name.len()
    &&& name[i] == DOT
    &&& forall|j: int| i < j < name.len() ==> name[j] != DOT
}

/// The extension of `name`: what follows its last dot, or `None` where it
/// has no dot.
pub open spec fn extension(name: Seq<u8>) -> Option<Seq<u8>> {
    if exists|i: int| last_dot_at(name, i) {
        let i = choose|i: int| last_dot_at(name, i);
        Some(name.subrange(i + 1, name.len() as int))
    } else {
        None
    }
}

/// Whether the first dot of `name` stands at index `i`, or `name` has no dot
/// and `i` is its length.
pub open spec fn stem_ends_at(name: Seq<u8>, i: int) -> bool {
    &&& 0 <= i <= name.len()
    &&& i < name.len() ==> name[i] == DOT
    &&& forall|j: int| 0 <= j < i ==> name[j] != DOT
}

/// The stem of `name`: what stands before its first dot, and the whole name
/// where it has no dot.
pub open spec fn stem(name: Seq<u8>) -> Seq<u8> {
    name.subrange(0, choose|i: int| stem_ends_at(name, i))
}

/// The number that the decimal digits `digits` spell.
pub open spec fn number(digits: Seq<u8>) -> nat
    decreases digits.len(),
{
    if digits.len() == 0 {
        0
    } else {
        number(digits.drop_last()) * 10 + (digits.last() - 48) as nat
    }
}

/// Whether every byte of `text` is a decimal digit.
pub open spec fn all_digits(text: Seq<u8>) -> bool {
    forall|i: int| 0 <= i < text.len() ==> 48 <= #[trigger] text[i] <= 57
}

/// What remains of `text` behind a plus sign at its front.
pub open spec fn unsigned_part(text: Seq<u8>) -> Seq<u8> {
    if text.len() > 0 && text[0] == 43 {
        text.subrange(1, text.len() as int)
    } else {
        text
    }
}

/// Whether `text` spells a number of 32 bits: at least one decimal digit,
/// behind a plus sign or none, and no more than `u32::MAX` in value.
pub open spec fn spells_number(text: Seq<u8>) -> bool {
    &&& unsigned_part(text).len() > 0
    &&& all_digits(unsigned_part(text))
    &&& number(unsigned_part(text)) <= u32::MAX
}

/// The stem of the stored name `path` where it spells a number, and nothing
/// where it does not.
pub open spec fn numbered_stem(path: Seq<u8>) -> Seq<u8> {
    if spells_number(stem(path)) {
        stem(path)
    } else {
        Seq::empty()
    }
}

/// The name that is made of a stem and an extension, with a dot between.
pub open spec fn stored_name(stem: Seq<u8>, extension: Seq<u8>) -> Seq<u8> {
    stem + seq![DOT] + extension
}

/// The largest number that the stem of any of `names` spells, and zero where
/// none spells one.
pub open spec fn largest_number(names: Seq<Vec<u8>>) -> nat
    decreases names.len(),
{
    if names.len() == 0 {
        0
    } else {
        let rest = largest_number(names.drop_last());
        let last = unsigned_part(stem(names.last()@));
        if spells_number(stem(names.last()@)) && number(last) > rest {
            number(last)
        } else {
            rest
        }
    }
}

/// The number for the next photo of an album: one more than the largest
/// number among the names of the files in its folder and the names that the
/// store holds for it.
pub open spec fn next_number(on_disk: Seq<Vec<u8>>, in_store: Seq<Vec<u8>>) -> nat {
    if largest_number(on_disk) >= largest_number(in_store) {
        largest_number(on_disk) + 1
    } else {
        largest_number(in_store) + 1
    }
}

/// The first dot is where it is, and nowhere else.
proof fn lemma_stem(name: Seq<u8>, i: int)
    requires
        stem_ends_at(name, i),
    ensures
        stem(name) == name.subrange(0, i),
{
    let chosen = choose|k: int| stem_ends_at(name, k);
    assert(chosen == i);
}

/// The last dot is where it is, and nowhere else.
proof fn lemma_extension(name: Seq<u8>, i: int)
    requires
        last_dot_at(name, i),
    ensures
        extension(name) == Some(name.subrange(i + 1, name.len() as int)),
{
    let chosen = choose|k: int| last_dot_at(name, k);
    assert(chosen == i);
}

/// More digits do not make a number smaller.
proof fn lemma_number_grows(digits: Seq<u8>, k: int)
    requires
        0 <= k <= digits.len(),
        all_digits(digits),
    ensures
        number(digits.subrange(0, k)) <= number(digits),
    decreases digits.len() - k,
{
    if k == digits.len() {
        assert(digits.subrange(0, k) =~= digits);
    } else {
        let front = digits.drop_last();
        assert(all_digits(front)) by {
            assert forall|i: int| 0 <= i < front.len() implies 48 <= #[trigger] front[i] <= 57 by {
                assert(front[i] == digits[i]);
            }
        }
        lemma_number_grows(front, k);
        assert(front.subrange(0, k) =~= digits.subrange(0, k));
        assert(48 <= digits[digits.len() - 1] <= 57);
    }
}

/// The extension of `name`.
pub fn extension_of(name: &[u8]) -> (found: Option<Vec<u8>>)
    ensures
        match found {
            Some(bytes) => extension(name@) == Some(bytes@),
            None => extension(name@) is None,
        },
{
    let n = name.len();
    let mut i: usize = n;
    while i > 0
        invariant
            n == name@.len(),
            i <= n,
            forall|j: int| i <= j < n ==> name@[j] != DOT,
        decreases i,
    {
        i = i - 1;
        if name[i] == DOT {
            proof {
                lemma_extension(name@, i as int);
            }
            return Some(slice_to_vec(slice_subrange(name, i + 1, n)));
        }
    }
    None
}

/// The extension of the name `uploaded` that a file came with, once the name
/// is cleaned: the bytes behind the last dot of the clean name, in UTF-8.
pub fn upload_extension(uploaded: &str) -> (found: Option<Vec<u8>>)
    ensures
        match found {
            Some(bytes) => extension(encode_utf8(sanitized(uploaded@))) == Some(bytes@),
            None => extension(encode_utf8(sanitized(uploaded@))) is None,
        },
{
    let clean = sanitize(uploaded);
    extension_of(clean.as_str().as_bytes())
}

fn stem_length(name: &[u8]) -> (end: usize)
    ensures
        end <= name@.len(),
        stem(name@) == name@.subrange(0, end as int),
{
    let n = name.len();
    let mut i: usize = 0;
    while i < n
        invariant
            n == name@.len(),
            i <= n,
            forall|j: int| 0 <= j < i ==> name@[j] != DOT,
        decreases n - i,
    {
        if name[i] == DOT {
            proof {
                lemma_stem(name@, i as int);
            }
            return i;
        }
        i = i + 1;
    }
    proof {
        lemma_stem(name@, n as int);
    }
    n
}

/// Reads `text` as a number of 32 bits; `None` where it spells none.
pub fn parse_number(text: &[u8]) -> (parsed: Option<u32>)
    ensures
        match parsed {
            Some(value) => spells_number(text@) && value == number(unsigned_part(text@)),
            None => !spells_number(text@),
        },
{
    let n = text.len();
    let start: usize = if n > 0 && text[0] == 43 {
        1
    } else {
        0
    };
    if start == n {
        return None;
    }
    let ghost digits = unsigned_part(text@);
    assert(digits =~= text@.subrange(start as int, n as int));
    let mut value: u64 = 0;
    let mut i: usize = start;
    assert(digits.subrange(0, 0) =~= Seq::<u8>::empty());
    while i < n
        invariant
            n == text@.len(),
            start <= i <= n,
            digits == text@.subrange(start as int, n as int),
            digits == unsigned_part(text@),
            forall|j: int| 0 <= j < i - start ==> 48 <= #[trigger] digits[j] <= 57,
            value == number(digits.subrange(0, i - start)),
            value <= u32::MAX,
        decreases n - i,
    {
        let c = text[i];
        assert(c == digits[i - start]);
        if c < 48 || c > 57 {
            assert(!all_digits(digits)) by {
                assert(!(48 <= digits[i - start] <= 57));
            }
            return None;
        }
        let ghost front = digits.subrange(0, i - start + 1);
        assert(front.drop_last() =~= digits.subrange(0, i - start));
        assert(front.last() == c);
        value = value * 10 + (c - 48) as u64;
        if value > 0xffff_ffff {
            proof {
                assert(number(front) == value);
                if all_digits(digits) {
                    lemma_number_grows(digits, i - start + 1);
                }
            }
            return None;
        }
        i = i + 1;
    }
    assert(digits.subrange(0, n - start) =~= digits);
    Some(value as u32)
}

/// The stem of the stored name `path` where it spells a number, and nothing
/// where it does not.
pub fn numbered_stem_of(path: &[u8]) -> (found: Vec<u8>)
    ensures
        found@ == numbered_stem(path@),
{
    let end = stem_length(path);
    let front = slice_subrange(path, 0, end);
    match parse_number(front) {
        Some(_) => slice_to_vec(front),
        None => Vec::new(),
    }
}

/// The name for a stem and an extension.
pub fn stored_name_of(stem: &[u8], extension: &[u8]) -> (name: Vec<u8>)
    ensures
        name@ == stored_name(stem@, extension@),
{
    let mut name = slice_to_vec(stem);
    name.push(DOT);
    append(&mut name, extension);
    name
}

fn largest_number_of(names: &Vec<Vec<u8>>) -> (largest: u32)
    ensures
        largest == largest_number(names@),
{
    let n = names.len();
    let mut largest: u32 = 0;
    let mut i: usize = 0;
    assert(names@.subrange(0, 0) =~= Seq::<Vec<u8>>::empty());
    while i < n
        invariant
            n == names@.len(),
            i <= n,
            largest == largest_number(names@.subrange(0, i as int)),
        decreases n - i,
    {
        let name = names[i].as_slice();
        let end = stem_length(name);
        let ghost front = names@.subrange(0, i + 1);
        assert(front.drop_last() =~= names@.subrange(0, i as int));
        assert(front.last() == names@[i as int]);
        match parse_number(slice_subrange(name, 0, end)) {
            Some(value) => {
                if value > largest {
                    largest = value;
                }
            },
            None => {},
        }
        i = i + 1;
    }
    assert(names@.subrange(0, n as int) =~= names@);
    largest
}

/// The stem for the next photo of an album, in decimal: one more than the
/// largest number among the names in the folder and the names in the store.
pub fn next_stem(on_disk: &Vec<Vec<u8>>, in_store: &Vec<Vec<u8>>) -> (digits: Vec<u8>)
    ensures
        digits@ == decimal(next_number(on_disk@, in_store@)),
{
    let a = largest_number_of(on_disk);
    let b = largest_number_of(in_store);
    let next: u64 = if a >= b {
        a as u64 + 1
    } else {
        b as u64 + 1
    };
    crate::header::decimal_of(next)
}

} // verus!
