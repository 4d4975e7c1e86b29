//! The stamp of a bank: the SHA-1 digest, in upper-case hexadecimal, of a
//! message made of the handles, the name of the bank, and the sections with
//! their entries, all put in the order of their names.

use vstd::prelude::*;
use vstd::utf8::encode_utf8;
use crate::bank::{Key, Section};
use crate::digest::{sha1_digest, sha1_of, spec_hex_upper};

verus! {

/// The strict lexicographic order on byte strings: the order in which
/// strings are compared.
pub open spec fn lex_lt(a: Seq<u8>, b: Seq<u8>) -> bool
    decreases a.len(),
{
    if b.len() == 0 {
        false
    } else if a.len() == 0 {
        true
    } else if a[0] != b[0] {
        a[0] < b[0]
    } else {
        lex_lt(a.drop_first(), b.drop_first())
    }
}

/// Whether `a` comes strictly before `b` in lexicographic order.
pub fn bytes_precede(a: &[u8], b: &[u8]) -> (r: bool)
    ensures
        r == lex_lt(a@, b@),
{
    let mut i: usize = 0;
    assert(a@.skip(0) =~= a@ && b@.skip(0) =~= b@);
    while i < a.len() && i < b.len()
        invariant
            i <= a@.len(),
            i <= b@.len(),
            lex_lt(a@, b@) == lex_lt(a@.skip(i as int), b@.skip(i as int)),
        decreases a@.len() - i,
    {
        if a[i] != b[i] {
            return a[i] < b[i];
        }
        assert(a@.skip(i as int).drop_first() =~= a@.skip(i + 1));
        assert(b@.skip(i as int).drop_first() =~= b@.skip(i + 1));
        i += 1;
    }
    a.len() < b.len()
}

/// Something with a name by which it is put in order.
pub trait Named {
    /// The name.
    spec fn label(&self) -> Seq<char>;

    /// The name as the bytes of its UTF-8 encoding.
    fn name_bytes(&self) -> (r: &[u8])
        ensures
            r@ == encode_utf8(self.label()),
    ;
}

impl Named for Key {
    open spec fn label(&self) -> Seq<char> {
        self.name@
    }

    fn name_bytes(&self) -> (r: &[u8]) {
        self.name.as_str().as_bytes()
    }
}

impl Named for Section {
    open spec fn label(&self) -> Seq<char> {
        self.name@
    }

    fn name_bytes(&self) -> (r: &[u8]) {
        self.name.as_str().as_bytes()
    }
}

/// Whether the name of `a` comes strictly before the name of `b`.
pub open spec fn precedes<T: Named>(a: T, b: T) -> bool {
    lex_lt(encode_utf8(a.label()), encode_utf8(b.label()))
}

/// Where `item` goes in a list in ascending order of names: behind the
/// leading items whose names come strictly before its own.
pub open spec fn insert_position<T: Named>(sorted: Seq<T>, item: T) -> int
    decreases sorted.len(),
{
    if sorted.len() > 0 && precedes(sorted.first(), item) {
        1 + insert_position(sorted.drop_first(), item)
    } else {
        0
    }
}

/// The items in ascending order of their names. Items with the same name
/// keep the order in which they came.
pub open spec fn sorted_by_name<T: Named>(items: Seq<T>) -> Seq<T>
    decreases items.len(),
{
    if items.len() == 0 {
        Seq::empty()
    } else {
        let rest = sorted_by_name(items.drop_first());
        rest.insert(insert_position(rest, items.first()), items.first())
    }
}

/// The values that the references point to.
pub open spec fn referents<T>(refs: Seq<&T>) -> Seq<T> {
    Seq::new(refs.len(), |i: int| *refs[i])
}

/// Puts the items in ascending order of their names.
pub fn sort_by_name<'a, T: Named>(items: &'a [T]) -> (out: Vec<&'a T>)
    ensures
        referents(out@) == sorted_by_name(items@),
{
    let mut out: Vec<&T> = Vec::new();
    let mut k: usize = items.len();
    assert(items@.skip(k as int) =~= Seq::<T>::empty());
    assert(referents(out@) =~= Seq::<T>::empty());
    while k > 0
        invariant
            k <= items@.len(),
            referents(out@) == sorted_by_name(items@.skip(k as int)),
        decreases k,
    {
        k -= 1;
        let item = &items[k];
        let ghost before = referents(out@);
        let mut p: usize = 0;
        assert(before.skip(0) =~= before);
        while p < out.len() && bytes_precede(out[p].name_bytes(), item.name_bytes())
            invariant
                p <= out@.len(),
                before == referents(out@),
                insert_position(before, *item) == p + insert_position(before.skip(p as int), *item),
            decreases out@.len() - p,
        {
            assert(before.skip(p as int).first() == *out@[p as int]);
            assert(before.skip(p as int).drop_first() =~= before.skip(p + 1));
            p += 1;
        }
        assert(p < out@.len() ==> before.skip(p as int).first() == *out@[p as int]);
        out.insert(p, item);
        assert(referents(out@) =~= before.insert(p as int, *item));
        assert(items@.skip(k as int).drop_first() =~= items@.skip(k + 1));
    }
    assert(items@.skip(0) =~= items@);
    out
}

/// The handle prefix of the region, which stands before each handle.
pub const HANDLE_PREFIX_NA: &'static str = "1-S2-1-";

/// The handle of the author in that region.
pub const AUTHOR_HANDLE_NA: usize = 417073;

/// The name of the bank.
pub const BANK_FILENAME: &'static str = "RunlingRun004";

/// The marker that follows the name of each entry.
pub const VALUE_MARKER: &'static str = "Value";

/// The marker that stands before the text of each entry.
pub const STRING_MARKER: &'static str = "string";

/// The decimal numeral of `n` in ASCII, without leading zeros.
pub open spec fn spec_decimal(n: nat) -> Seq<u8>
    decreases n,
{
    if n < 10 {
        seq![(48 + n) as u8]
    } else {
        spec_decimal(n / 10).push((48 + n % 10) as u8)
    }
}

/// What one entry adds to the message: its name, the two markers, and its
/// text.
pub open spec fn entry_message(key: Key) -> Seq<u8> {
    encode_utf8(key.name@) + encode_utf8(VALUE_MARKER@) + encode_utf8(STRING_MARKER@)
        + encode_utf8(key.value.string@)
}

/// What the entries add to the message, one after the other.
pub open spec fn entries_message(keys: Seq<Key>) -> Seq<u8>
    decreases keys.len(),
{
    if keys.len() == 0 {
        Seq::empty()
    } else {
        entries_message(keys.drop_last()) + entry_message(keys.last())
    }
}

/// What one section adds to the message: its name, then its entries in
/// ascending order of their names.
pub open spec fn section_message(section: Section) -> Seq<u8> {
    encode_utf8(section.name@) + entries_message(sorted_by_name(section.keys@))
}

/// What the sections add to the message, one after the other.
pub open spec fn sections_message(sections: Seq<Section>) -> Seq<u8>
    decreases sections.len(),
{
    if sections.len() == 0 {
        Seq::empty()
    } else {
        sections_message(sections.drop_last()) + section_message(sections.last())
    }
}

/// The start of every message: the handle of the author, the handle of the
/// player, each behind the prefix, and the name of the bank.
pub open spec fn preamble(player_handle: usize) -> Seq<u8> {
    encode_utf8(HANDLE_PREFIX_NA@) + spec_decimal(AUTHOR_HANDLE_NA as nat) + encode_utf8(
        HANDLE_PREFIX_NA@,
    ) + spec_decimal(player_handle as nat) + encode_utf8(BANK_FILENAME@)
}

/// The message that is hashed: the preamble, then the sections in ascending
/// order of their names.
pub open spec fn spec_signature_message(player_handle: usize, sections: Seq<Section>) -> Seq<u8> {
    preamble(player_handle) + sections_message(sorted_by_name(sections))
}

/// The stamp: the SHA-1 digest of the message in upper-case hexadecimal.
pub open spec fn spec_signature(player_handle: usize, sections: Seq<Section>) -> Seq<char> {
    spec_hex_upper(sha1_digest(spec_signature_message(player_handle, sections)))
}

fn push_bytes(out: &mut Vec<u8>, bytes: &[u8])
    ensures
        final(out)@ == old(out)@ + bytes@,
{
    let mut i: usize = 0;
    while i < bytes.len()
        invariant
            i <= bytes@.len(),
            out@ == old(out)@ + bytes@.take(i as int),
        decreases bytes@.len() - i,
    {
        out.push(bytes[i]);
        assert(bytes@.take(i + 1) =~= bytes@.take(i as int).push(bytes@[i as int]));
        i += 1;
    }
    assert(bytes@.take(i as int) =~= bytes@);
}

fn push_decimal(out: &mut Vec<u8>, n: usize)
    ensures
        final(out)@ == old(out)@ + spec_decimal(n as nat),
    decreases n,
{
    if n >= 10 {
        push_decimal(out, n / 10);
    }
    out.push(48 + (n % 10) as u8);
}

/// Adds to the message what one entry adds to it.
fn push_entry(message: &mut Vec<u8>, key: &Key)
    ensures
        final(message)@ == old(message)@ + entry_message(*key),
{
    push_bytes(message, key.name_bytes());
    push_bytes(message, VALUE_MARKER.as_bytes());
    push_bytes(message, STRING_MARKER.as_bytes());
    push_bytes(message, key.value.string.as_str().as_bytes());
    assert(message@ =~= old(message)@ + entry_message(*key));
}

/// Adds to the message what one section adds to it.
fn push_section(message: &mut Vec<u8>, section: &Section)
    ensures
        final(message)@ == old(message)@ + section_message(*section),
{
    push_bytes(message, section.name_bytes());
    let ghost start = message@;
    let keys = sort_by_name(section.keys.as_slice());
    let mut j: usize = 0;
    assert(message@ =~= start + entries_message(referents(keys@).take(0)));
    while j < keys.len()
        invariant
            j <= keys@.len(),
            message@ == start + entries_message(referents(keys@).take(j as int)),
        decreases keys@.len() - j,
    {
        push_entry(message, keys[j]);
        proof {
            let next = referents(keys@).take(j + 1);
            assert(next.drop_last() =~= referents(keys@).take(j as int));
            assert(next.last() == *keys@[j as int]);
            assert(message@ =~= start + entries_message(next));
        }
        j += 1;
    }
    assert(referents(keys@).take(j as int) =~= referents(keys@));
    assert(message@ =~= old(message)@ + section_message(*section));
}

/// The message that `compute_signature` hashes.
pub fn signature_message(player_handle: usize, sections: &[Section]) -> (message: Vec<u8>)
    ensures
        message@ == spec_signature_message(player_handle, sections@),
{
    let mut message: Vec<u8> = Vec::new();
    push_bytes(&mut message, HANDLE_PREFIX_NA.as_bytes());
    push_decimal(&mut message, AUTHOR_HANDLE_NA);
    push_bytes(&mut message, HANDLE_PREFIX_NA.as_bytes());
    push_decimal(&mut message, player_handle);
    push_bytes(&mut message, BANK_FILENAME.as_bytes());
    assert(message@ =~= preamble(player_handle));
    let ordered = sort_by_name(sections);
    let mut i: usize = 0;
    assert(message@ =~= preamble(player_handle) + sections_message(
        referents(ordered@).take(0),
    ));
    while i < ordered.len()
        invariant
            i <= ordered@.len(),
            message@ == preamble(player_handle) + sections_message(
                referents(ordered@).take(i as int),
            ),
        decreases ordered@.len() - i,
    {
        push_section(&mut message, ordered[i]);
        proof {
            let next = referents(ordered@).take(i + 1);
            assert(next.drop_last() =~= referents(ordered@).take(i as int));
            assert(next.last() == *ordered@[i as int]);
            assert(message@ =~= preamble(player_handle) + sections_message(next));
        }
        i += 1;
    }
    assert(referents(ordered@).take(i as int) =~= referents(ordered@));
    message
}

/// The stamp for a digest: the digest in upper-case hexadecimal.
pub fn signature_text(digest: &[u8]) -> (text: String)
    requires
        digest@.len() <= usize::MAX / 2,
    ensures
        text@ == spec_hex_upper(digest@),
{
    base16ct::upper::encode_string(digest)
}

/// The stamp over the sections for the player: the order of the sections,
/// and of the entries within each, does not matter.
pub fn compute_signature(player_handle: usize, sections: &[Section]) -> (signature: String)
    ensures
        signature@ == spec_signature(player_handle, sections@),
        signature@.len() == 40,
{
    let message = signature_message(player_handle, sections);
    let hash = sha1_of(message.as_slice());
    signature_text(hash.as_slice())
}

} // verus!
