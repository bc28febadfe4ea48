//! The content digest of a composition source: every entry of the source
//! tree, ordered by its relative path, framed with big-endian lengths and
//! hashed with SHA-256. The order in which a directory walk met the entries
//! does not reach the digest.
use vstd::prelude::*;
use vstd::multiset::Multiset;
use vstd::utf8::encode_utf8;

verus! {

/// What an inventory entry records.
#[derive(Debug, Clone, Copy, PartialEq, Eq, Structural)]
pub enum EntryKind {
    /// The bytes of a regular file (or of a symlink's final target).
    File,
    /// The target text of a symlink.
    Symlink,
}

/// The kind as the digest spells it.
pub open spec fn kind_text(k: EntryKind) -> Seq<u8> {
    match k {
        EntryKind::File => seq![102u8, 105u8, 108u8, 101u8],
        EntryKind::Symlink => seq![115u8, 121u8, 109u8, 108u8, 105u8, 110u8, 107u8],
    }
}

/// One read entry of a source tree.
#[derive(Debug)]
pub struct InventoryEntry {
    /// The `/`-separated path relative to the source root.
    pub path: String,
    pub kind: EntryKind,
    pub bytes: Vec<u8>,
}

/// What a directory walk read under a composition source.
#[derive(Debug)]
pub struct CompositionInventory {
    pub entries: Vec<InventoryEntry>,
    /// Whether a symlink on the way resolved outside the source root.
    pub escaping: bool,
}

// ---------------------------------------------------------------------------
// Order
// ---------------------------------------------------------------------------

/// Lexicographic order of byte strings, a proper prefix first.
pub open spec fn bytes_less(a: Seq<u8>, b: Seq<u8>) -> bool
    decreases a.len(),
{
    if a.len() == 0 {
        b.len() > 0
    } else if b.len() == 0 {
        false
    } else if a[0] != b[0] {
        a[0] < b[0]
    } else {
        bytes_less(a.drop_first(), b.drop_first())
    }
}

/// The path's UTF-8 bytes.
pub open spec fn path_bytes(e: InventoryEntry) -> Seq<u8> {
    encode_utf8(e.path@)
}

/// Whether `a` sorts strictly before `b`: by path bytes, then, when
/// `with_kind`, a file before a symlink.
pub open spec fn entry_less(a: InventoryEntry, b: InventoryEntry, with_kind: bool) -> bool {
    ||| bytes_less(path_bytes(a), path_bytes(b))
    ||| (with_kind && path_bytes(a) == path_bytes(b) && a.kind == EntryKind::File && b.kind
        == EntryKind::Symlink)
}

/// Whether `a` and `b` share a sort key.
pub open spec fn same_key(a: InventoryEntry, b: InventoryEntry, with_kind: bool) -> bool {
    path_bytes(a) == path_bytes(b) && (with_kind ==> a.kind == b.kind)
}

/// `x` placed before the first element it sorts strictly before.
pub open spec fn sorted_insert(s: Seq<InventoryEntry>, x: InventoryEntry, with_kind: bool) -> Seq<
    InventoryEntry,
>
    decreases s.len(),
{
    if s.len() == 0 {
        seq![x]
    } else if entry_less(x, s[0], with_kind) {
        seq![x] + s
    } else {
        seq![s[0]] + sorted_insert(s.drop_first(), x, with_kind)
    }
}

/// The entries in key order; entries with one key keep their order (a
/// stable sort).
pub open spec fn sort_entries(s: Seq<InventoryEntry>, with_kind: bool) -> Seq<InventoryEntry>
    decreases s.len(),
{
    if s.len() == 0 {
        seq![]
    } else {
        sorted_insert(sort_entries(s.drop_last(), with_kind), s.last(), with_kind)
    }
}

// ---------------------------------------------------------------------------
// Framing, hashing, spelling
// ---------------------------------------------------------------------------

/// `(n as u64).to_be_bytes()`.
pub open spec fn be_bytes(n: nat) -> Seq<u8> {
    seq![
        ((n / 0x100000000000000) % 256) as u8,
        ((n / 0x1000000000000) % 256) as u8,
        ((n / 0x10000000000) % 256) as u8,
        ((n / 0x100000000) % 256) as u8,
        ((n / 0x1000000) % 256) as u8,
        ((n / 0x10000) % 256) as u8,
        ((n / 0x100) % 256) as u8,
        (n % 256) as u8,
    ]
}

/// One field, preceded by its length.
pub open spec fn frame(field: Seq<u8>) -> Seq<u8> {
    be_bytes(field.len()) + field
}

/// The framed path, kind and bytes of an entry.
pub open spec fn entry_frames(e: InventoryEntry) -> Seq<u8> {
    frame(path_bytes(e)) + frame(kind_text(e.kind)) + frame(e.bytes@)
}

/// The framed entries, in order.
pub open spec fn frames(s: Seq<InventoryEntry>) -> Seq<u8>
    decreases s.len(),
{
    if s.len() == 0 {
        seq![]
    } else {
        frames(s.drop_last()) + entry_frames(s.last())
    }
}

/// The SHA-256 digest of a byte string.
pub uninterp spec fn sha256(bytes: Seq<u8>) -> Seq<u8>;

/// `sha2::Sha256::digest`: the 32-byte SHA-256 digest of `bytes`, named
/// `sha256` and not computed here. Feeding a hasher the bytes in several
/// `update` calls digests their concatenation, so one call on the whole
/// framed text gives what streaming the frames would.
#[verifier::external_body]
fn sha256_digest(bytes: &Vec<u8>) -> (out: Vec<u8>)
    ensures
        out@ == sha256(bytes@),
        out@.len() == 32,
{
    <sha2::Sha256 as sha2::Digest>::digest(bytes.as_slice()).to_vec()
}

/// The lowercase hexadecimal digit of `d`.
pub open spec fn hex_digit(d: nat) -> char {
    if d < 10 {
        crate::text::digit_char(d)
    } else if d == 10 {
        'a'
    } else if d == 11 {
        'b'
    } else if d == 12 {
        'c'
    } else if d == 13 {
        'd'
    } else if d == 14 {
        'e'
    } else {
        'f'
    }
}

/// Lowercase hexadecimal, two digits per byte (`{:x}` of a digest).
pub open spec fn hex(bytes: Seq<u8>) -> Seq<char>
    decreases bytes.len(),
{
    if bytes.len() == 0 {
        seq![]
    } else {
        hex(bytes.drop_last()) + seq![
            hex_digit((bytes.last() / 16) as nat),
            hex_digit((bytes.last() % 16) as nat),
        ]
    }
}

/// The content digest of a set of entries.
pub open spec fn digest_spec(s: Seq<InventoryEntry>, with_kind: bool) -> Seq<char> {
    hex(sha256(frames(sort_entries(s, with_kind))))
}

// ---------------------------------------------------------------------------
// Executable
// ---------------------------------------------------------------------------

fn less_bytes(a: &[u8], b: &[u8]) -> (r: bool)
    ensures
        r == bytes_less(a@, b@),
{
    let mut i: usize = 0;
    assert(a@.skip(0) =~= a@);
    assert(b@.skip(0) =~= b@);
    while i < a.len() && i < b.len() && a[i] == b[i]
        invariant
            i <= a@.len(),
            i <= b@.len(),
            bytes_less(a@, b@) == bytes_less(a@.skip(i as int), b@.skip(i as int)),
        decreases a.len() - i,
    {
        assert(a@.skip(i as int).drop_first() =~= a@.skip(i + 1));
        assert(b@.skip(i as int).drop_first() =~= b@.skip(i + 1));
        i += 1;
    }
    if i == a.len() {
        i < b.len()
    } else if i == b.len() {
        false
    } else {
        a[i] < b[i]
    }
}

fn entry_is_less(a: &InventoryEntry, b: &InventoryEntry, with_kind: bool) -> (r: bool)
    ensures
        r == entry_less(*a, *b, with_kind),
{
    let pa = a.path.as_str().as_bytes();
    let pb = b.path.as_str().as_bytes();
    if less_bytes(pa, pb) {
        return true;
    }
    if !with_kind || less_bytes(pb, pa) {
        return false;
    }
    proof {
        lemma_bytes_trichotomy(pa@, pb@);
    }
    a.kind == EntryKind::File && b.kind == EntryKind::Symlink
}

/// Two byte strings neither before the other are equal.
proof fn lemma_bytes_trichotomy(a: Seq<u8>, b: Seq<u8>)
    ensures
        !bytes_less(a, b) && !bytes_less(b, a) ==> a == b,
    decreases a.len(),
{
    if a.len() > 0 && b.len() > 0 && a[0] == b[0] {
        lemma_bytes_trichotomy(a.drop_first(), b.drop_first());
        if !bytes_less(a, b) && !bytes_less(b, a) {
            assert(a =~= seq![a[0]] + a.drop_first());
            assert(b =~= seq![b[0]] + b.drop_first());
        }
    }
}

proof fn lemma_sorted_insert_at(s: Seq<InventoryEntry>, x: InventoryEntry, with_kind: bool, j: int)
    requires
        0 <= j <= s.len(),
        forall|k: int| 0 <= k < j ==> !entry_less(x, #[trigger] s[k], with_kind),
        j < s.len() ==> entry_less(x, s[j], with_kind),
    ensures
        sorted_insert(s, x, with_kind) == s.insert(j, x),
    decreases s.len(),
{
    if s.len() == 0 {
        assert(s.insert(j, x) =~= seq![x]);
    } else if j == 0 {
        assert(seq![x] + s =~= s.insert(0, x));
    } else {
        assert(!entry_less(x, s[0], with_kind));
        assert forall|k: int| 0 <= k < j - 1 implies !entry_less(
            x,
            #[trigger] s.drop_first()[k],
            with_kind,
        ) by {
            assert(s.drop_first()[k] == s[k + 1]);
        }
        lemma_sorted_insert_at(s.drop_first(), x, with_kind, j - 1);
        assert(seq![s[0]] + s.drop_first().insert(j - 1, x) =~= s.insert(j, x));
    }
}

/// The entries an index list picks out.
pub open spec fn picked(entries: Seq<InventoryEntry>, order: Seq<usize>) -> Seq<InventoryEntry> {
    order.map_values(|i: usize| entries[i as int])
}

/// The order in which the entries are digested, as indices.
fn sorted_order(entries: &Vec<InventoryEntry>, with_kind: bool) -> (order: Vec<usize>)
    ensures
        forall|k: int| 0 <= k < order@.len() ==> #[trigger] order@[k] < entries@.len(),
        picked(entries@, order@) == sort_entries(entries@, with_kind),
{
    let mut order: Vec<usize> = Vec::new();
    let mut n: usize = 0;
    assert(picked(entries@, order@) =~= sort_entries(entries@.take(0), with_kind));
    while n < entries.len()
        invariant
            n <= entries@.len(),
            forall|k: int| 0 <= k < order@.len() ==> #[trigger] order@[k] < entries@.len(),
            picked(entries@, order@) == sort_entries(entries@.take(n as int), with_kind),
        decreases entries.len() - n,
    {
        let ghost cur = picked(entries@, order@);
        let mut j: usize = 0;
        while j < order.len() && !entry_is_less(&entries[n], &entries[order[j]], with_kind)
            invariant
                n < entries@.len(),
                j <= order@.len(),
                cur == picked(entries@, order@),
                forall|k: int| 0 <= k < order@.len() ==> #[trigger] order@[k] < entries@.len(),
                forall|k: int| 0 <= k < j ==> !entry_less(entries@[n as int], #[trigger] cur[k], with_kind),
            decreases order.len() - j,
        {
            j += 1;
        }
        proof {
            lemma_sorted_insert_at(cur, entries@[n as int], with_kind, j as int);
            assert(entries@.take(n + 1).drop_last() =~= entries@.take(n as int));
        }
        order.insert(j, n);
        assert(picked(entries@, order@) =~= cur.insert(j as int, entries@[n as int]));
        n += 1;
    }
    assert(entries@.take(entries@.len() as int) =~= entries@);
    order
}

fn push_be_length(out: &mut Vec<u8>, n: usize)
    ensures
        final(out)@ == old(out)@ + be_bytes(n as nat),
{
    let v = n as u64;
    out.push(((v / 0x100000000000000) % 256) as u8);
    out.push(((v / 0x1000000000000) % 256) as u8);
    out.push(((v / 0x10000000000) % 256) as u8);
    out.push(((v / 0x100000000) % 256) as u8);
    out.push(((v / 0x1000000) % 256) as u8);
    out.push(((v / 0x10000) % 256) as u8);
    out.push(((v / 0x100) % 256) as u8);
    out.push((v % 256) as u8);
    assert(final(out)@ =~= old(out)@ + be_bytes(n as nat));
}

fn push_frame(out: &mut Vec<u8>, field: &[u8])
    ensures
        final(out)@ == old(out)@ + frame(field@),
{
    push_be_length(out, field.len());
    let ghost mid = out@;
    let mut i: usize = 0;
    while i < field.len()
        invariant
            i <= field@.len(),
            out@ == mid + field@.take(i as int),
        decreases field.len() - i,
    {
        out.push(field[i]);
        i += 1;
        assert(out@ =~= mid + field@.take(i as int));
    }
    assert(field@.take(field@.len() as int) =~= field@);
    assert(final(out)@ =~= old(out)@ + frame(field@));
}

fn kind_bytes(k: EntryKind) -> (out: Vec<u8>)
    ensures
        out@ == kind_text(k),
{
    match k {
        EntryKind::File => {
            let v = vec![102u8, 105u8, 108u8, 101u8];
            assert(v@ =~= kind_text(k));
            v
        },
        EntryKind::Symlink => {
            let v = vec![115u8, 121u8, 109u8, 108u8, 105u8, 110u8, 107u8];
            assert(v@ =~= kind_text(k));
            v
        },
    }
}

fn framed(entries: &Vec<InventoryEntry>, order: &Vec<usize>) -> (out: Vec<u8>)
    requires
        forall|k: int| 0 <= k < order@.len() ==> #[trigger] order@[k] < entries@.len(),
    ensures
        out@ == frames(picked(entries@, order@)),
{
    let ghost all = picked(entries@, order@);
    let mut out: Vec<u8> = Vec::new();
    let mut i: usize = 0;
    assert(all.take(0) =~= Seq::<InventoryEntry>::empty());
    while i < order.len()
        invariant
            i <= order@.len(),
            all == picked(entries@, order@),
            forall|k: int| 0 <= k < order@.len() ==> #[trigger] order@[k] < entries@.len(),
            out@ == frames(all.take(i as int)),
        decreases order.len() - i,
    {
        let e = &entries[order[i]];
        assert(all[i as int] == *e);
        push_frame(&mut out, e.path.as_str().as_bytes());
        let kind = kind_bytes(e.kind);
        push_frame(&mut out, kind.as_slice());
        push_frame(&mut out, e.bytes.as_slice());
        assert(all.take(i + 1).drop_last() =~= all.take(i as int));
        i += 1;
        assert(out@ =~= frames(all.take(i as int)));
    }
    assert(all.take(order@.len() as int) =~= all);
    out
}

fn hex_char(d: u8) -> (c: char)
    requires
        d < 16,
    ensures
        c == hex_digit(d as nat),
{
    if d == 0 {
        '0'
    } else if d == 1 {
        '1'
    } else if d == 2 {
        '2'
    } else if d == 3 {
        '3'
    } else if d == 4 {
        '4'
    } else if d == 5 {
        '5'
    } else if d == 6 {
        '6'
    } else if d == 7 {
        '7'
    } else if d == 8 {
        '8'
    } else if d == 9 {
        '9'
    } else if d == 10 {
        'a'
    } else if d == 11 {
        'b'
    } else if d == 12 {
        'c'
    } else if d == 13 {
        'd'
    } else if d == 14 {
        'e'
    } else {
        'f'
    }
}

fn hex_string(bytes: &Vec<u8>) -> (out: String)
    ensures
        out@ == hex(bytes@),
{
    let mut out = String::new();
    let mut i: usize = 0;
    assert(bytes@.take(0) =~= Seq::<u8>::empty());
    while i < bytes.len()
        invariant
            i <= bytes@.len(),
            out@ == hex(bytes@.take(i as int)),
        decreases bytes.len() - i,
    {
        let b = bytes[i];
        out.push(hex_char(b / 16));
        out.push(hex_char(b % 16));
        assert(bytes@.take(i + 1).drop_last() =~= bytes@.take(i as int));
        i += 1;
        assert(out@ =~= hex(bytes@.take(i as int)));
    }
    assert(bytes@.take(bytes@.len() as int) =~= bytes@);
    out
}

fn digest_entries(entries: &Vec<InventoryEntry>, with_kind: bool) -> (out: String)
    ensures
        out@ == digest_spec(entries@, with_kind),
{
    let order = sorted_order(entries, with_kind);
    let bytes = framed(entries, &order);
    let hash = sha256_digest(&bytes);
    hex_string(&hash)
}

impl CompositionInventory {
    /// The content digest: the entries ordered by path and then kind,
    /// each field framed by its big-endian length, SHA-256, lowercase hex.
    pub fn digest(&self) -> (out: String)
        ensures
            out@ == digest_spec(self.entries@, true),
    {
        digest_entries(&self.entries, true)
    }
}

/// The content digest of a source tree's entries: ordered by path alone,
/// each field framed by its big-endian length, SHA-256, lowercase hex.
pub fn composition_tree_digest(entries: &Vec<InventoryEntry>) -> (out: String)
    ensures
        out@ == digest_spec(entries@, false),
{
    digest_entries(entries, false)
}

// ---------------------------------------------------------------------------
// The digest does not depend on the walk's order
// ---------------------------------------------------------------------------

/// Whether `a` sorts no later than `b`.
pub open spec fn entry_le(a: InventoryEntry, b: InventoryEntry, with_kind: bool) -> bool {
    !entry_less(b, a, with_kind)
}

/// Entries in key order.
pub open spec fn is_sorted(t: Seq<InventoryEntry>, with_kind: bool) -> bool {
    forall|i: int, j: int| 0 <= i < j < t.len() ==> entry_le(#[trigger] t[i], #[trigger] t[j], with_kind)
}

/// No two distinct entries of `m` share a sort key, and none occurs twice.
pub open spec fn keys_unique(m: Multiset<InventoryEntry>, with_kind: bool) -> bool {
    forall|a: InventoryEntry, b: InventoryEntry|
        #![trigger m.count(a), m.count(b)]
        m.count(a) > 0 && m.count(b) > 0 && same_key(a, b, with_kind) ==> a == b && m.count(a) == 1
}

proof fn lemma_bytes_irreflexive(a: Seq<u8>)
    ensures
        !bytes_less(a, a),
    decreases a.len(),
{
    if a.len() > 0 {
        lemma_bytes_irreflexive(a.drop_first());
    }
}

proof fn lemma_bytes_transitive(a: Seq<u8>, b: Seq<u8>, c: Seq<u8>)
    requires
        bytes_less(a, b),
        bytes_less(b, c),
    ensures
        bytes_less(a, c),
    decreases a.len(),
{
    if a.len() > 0 && b.len() > 0 && c.len() > 0 && a[0] == b[0] && b[0] == c[0] {
        lemma_bytes_transitive(a.drop_first(), b.drop_first(), c.drop_first());
    }
}

proof fn lemma_bytes_asymmetric(a: Seq<u8>, b: Seq<u8>)
    ensures
        !(bytes_less(a, b) && bytes_less(b, a)),
    decreases a.len(),
{
    if a.len() > 0 && b.len() > 0 && a[0] == b[0] {
        lemma_bytes_asymmetric(a.drop_first(), b.drop_first());
    }
}

/// Order facts for entries: `entry_less` is a strict order whose
/// incomparable pairs are exactly those sharing a key.
proof fn lemma_entry_order(a: InventoryEntry, b: InventoryEntry, c: InventoryEntry, with_kind: bool)
    ensures
        !entry_less(a, a, with_kind),
        !(entry_less(a, b, with_kind) && entry_less(b, a, with_kind)),
        entry_less(a, b, with_kind) && entry_less(b, c, with_kind) ==> entry_less(a, c, with_kind),
        !entry_less(a, b, with_kind) && !entry_less(b, a, with_kind) <==> same_key(a, b, with_kind),
        entry_le(a, b, with_kind) && entry_le(b, c, with_kind) ==> entry_le(a, c, with_kind),
        entry_less(a, b, with_kind) && entry_le(b, c, with_kind) ==> entry_less(a, c, with_kind),
{
    let (pa, pb, pc) = (path_bytes(a), path_bytes(b), path_bytes(c));
    lemma_bytes_irreflexive(pa);
    lemma_bytes_asymmetric(pa, pb);
    lemma_bytes_asymmetric(pb, pc);
    lemma_bytes_asymmetric(pa, pc);
    lemma_bytes_trichotomy(pa, pb);
    lemma_bytes_trichotomy(pb, pc);
    lemma_bytes_trichotomy(pa, pc);
    if bytes_less(pa, pb) && bytes_less(pb, pc) {
        lemma_bytes_transitive(pa, pb, pc);
    }
    if bytes_less(pc, pb) && bytes_less(pb, pa) {
        lemma_bytes_transitive(pc, pb, pa);
    }
    if bytes_less(pb, pa) && bytes_less(pa, pc) {
        lemma_bytes_transitive(pb, pa, pc);
    }
    if bytes_less(pa, pc) && bytes_less(pc, pb) {
        lemma_bytes_transitive(pa, pc, pb);
    }
    if bytes_less(pc, pa) && bytes_less(pa, pb) {
        lemma_bytes_transitive(pc, pa, pb);
    }
    if bytes_less(pb, pc) && bytes_less(pc, pa) {
        lemma_bytes_transitive(pb, pc, pa);
    }
}

proof fn lemma_sorted_insert_multiset(s: Seq<InventoryEntry>, x: InventoryEntry, with_kind: bool)
    ensures
        sorted_insert(s, x, with_kind).to_multiset() == s.to_multiset().insert(x),
    decreases s.len(),
{
    broadcast use vstd::seq_lib::group_to_multiset_ensures;

    if s.len() == 0 {
        assert(seq![x] =~= s.insert(0, x));
    } else if entry_less(x, s[0], with_kind) {
        assert(seq![x] + s =~= s.insert(0, x));
    } else {
        let rest = sorted_insert(s.drop_first(), x, with_kind);
        lemma_sorted_insert_multiset(s.drop_first(), x, with_kind);
        assert(seq![s[0]] + rest =~= rest.insert(0, s[0]));
        assert(s =~= s.drop_first().insert(0, s[0]));
        assert(s.to_multiset() =~= s.drop_first().to_multiset().insert(s[0]));
        assert(sorted_insert(s, x, with_kind).to_multiset() =~= s.to_multiset().insert(x));
    }
}

proof fn lemma_sort_multiset(s: Seq<InventoryEntry>, with_kind: bool)
    ensures
        sort_entries(s, with_kind).to_multiset() == s.to_multiset(),
    decreases s.len(),
{
    broadcast use vstd::seq_lib::group_to_multiset_ensures;

    if s.len() > 0 {
        lemma_sort_multiset(s.drop_last(), with_kind);
        lemma_sorted_insert_multiset(sort_entries(s.drop_last(), with_kind), s.last(), with_kind);
        assert(s =~= s.drop_last().push(s.last()));
    }
}

proof fn lemma_sorted_insert_sorted(s: Seq<InventoryEntry>, x: InventoryEntry, with_kind: bool)
    requires
        is_sorted(s, with_kind),
    ensures
        is_sorted(sorted_insert(s, x, with_kind), with_kind),
    decreases s.len(),
{
    broadcast use vstd::seq_lib::group_to_multiset_ensures;

    let t = sorted_insert(s, x, with_kind);
    if s.len() == 0 {
    } else if entry_less(x, s[0], with_kind) {
        assert forall|i: int, j: int| 0 <= i < j < t.len() implies entry_le(
            #[trigger] t[i],
            #[trigger] t[j],
            with_kind,
        ) by {
            if i == 0 {
                lemma_entry_order(x, s[0], s[j - 1], with_kind);
                if j - 1 > 0 {
                    assert(entry_le(s[0], s[j - 1], with_kind));
                } else {
                    lemma_entry_order(x, s[0], s[0], with_kind);
                }
            } else {
                assert(entry_le(s[i - 1], s[j - 1], with_kind));
            }
        }
    } else {
        let rest = s.drop_first();
        let r = sorted_insert(rest, x, with_kind);
        assert(is_sorted(rest, with_kind)) by {
            assert forall|i: int, j: int| 0 <= i < j < rest.len() implies entry_le(
                #[trigger] rest[i],
                #[trigger] rest[j],
                with_kind,
            ) by {
                assert(entry_le(s[i + 1], s[j + 1], with_kind));
            }
        }
        lemma_sorted_insert_sorted(rest, x, with_kind);
        lemma_sorted_insert_multiset(rest, x, with_kind);
        assert forall|i: int, j: int| 0 <= i < j < t.len() implies entry_le(
            #[trigger] t[i],
            #[trigger] t[j],
            with_kind,
        ) by {
            assert(t =~= seq![s[0]] + r);
            if i == 0 {
                let y = r[j - 1];
                assert(r.to_multiset().count(y) > 0);
                assert(rest.to_multiset().insert(x).count(y) > 0);
                if y == x {
                    lemma_entry_order(x, s[0], s[0], with_kind);
                } else {
                    assert(rest.to_multiset().count(y) > 0);
                    assert(rest.contains(y));
                    let k = choose|k: int| 0 <= k < rest.len() && rest[k] == y;
                    assert(entry_le(s[0], s[k + 1], with_kind));
                }
            } else {
                assert(entry_le(r[i - 1], r[j - 1], with_kind));
            }
        }
    }
}

proof fn lemma_sort_sorted(s: Seq<InventoryEntry>, with_kind: bool)
    ensures
        is_sorted(sort_entries(s, with_kind), with_kind),
    decreases s.len(),
{
    if s.len() > 0 {
        lemma_sort_sorted(s.drop_last(), with_kind);
        lemma_sorted_insert_sorted(sort_entries(s.drop_last(), with_kind), s.last(), with_kind);
    }
}

/// Two key-ordered arrangements of one multiset with unique keys are the
/// same sequence.
proof fn lemma_sorted_unique(x: Seq<InventoryEntry>, y: Seq<InventoryEntry>, with_kind: bool)
    requires
        is_sorted(x, with_kind),
        is_sorted(y, with_kind),
        x.to_multiset() == y.to_multiset(),
        keys_unique(x.to_multiset(), with_kind),
    ensures
        x == y,
    decreases x.len(),
{
    broadcast use vstd::seq_lib::group_to_multiset_ensures;

    if x.len() == 0 {
        assert(x.to_multiset().len() == x.len());
        assert(y.to_multiset().len() == y.len());
        assert(y.len() == 0);
        assert(x =~= y);
    } else {
        assert(x.to_multiset().len() == x.len());
        assert(y.to_multiset().len() == y.len());
        assert(y.len() == x.len());
        let m = x.to_multiset();
        assert(m.count(x[0]) > 0);
        assert(y.contains(x[0]));
        let j = choose|j: int| 0 <= j < y.len() && y[j] == x[0];
        assert(m.count(y[0]) > 0);
        assert(x.contains(y[0]));
        let i = choose|i: int| 0 <= i < x.len() && x[i] == y[0];
        if i > 0 {
            assert(entry_le(x[0], x[i], with_kind));
        } else {
            lemma_entry_order(x[0], x[0], x[0], with_kind);
        }
        if j > 0 {
            assert(entry_le(y[0], y[j], with_kind));
        } else {
            lemma_entry_order(y[0], y[0], y[0], with_kind);
        }
        lemma_entry_order(x[0], y[0], x[0], with_kind);
        assert(same_key(x[0], y[0], with_kind));
        assert(x[0] == y[0]);
        let (xr, yr) = (x.drop_first(), y.drop_first());
        assert(x.remove(0) =~= xr);
        assert(y.remove(0) =~= yr);
        assert(xr.to_multiset() == m.remove(x[0]));
        assert(yr.to_multiset() == y.to_multiset().remove(y[0]));
        assert(is_sorted(xr, with_kind)) by {
            assert forall|a: int, b: int| 0 <= a < b < xr.len() implies entry_le(
                #[trigger] xr[a],
                #[trigger] xr[b],
                with_kind,
            ) by {
                assert(entry_le(x[a + 1], x[b + 1], with_kind));
            }
        }
        assert(is_sorted(yr, with_kind)) by {
            assert forall|a: int, b: int| 0 <= a < b < yr.len() implies entry_le(
                #[trigger] yr[a],
                #[trigger] yr[b],
                with_kind,
            ) by {
                assert(entry_le(y[a + 1], y[b + 1], with_kind));
            }
        }
        let mr = xr.to_multiset();
        assert(keys_unique(mr, with_kind)) by {
            assert forall|a: InventoryEntry, b: InventoryEntry|
                #![trigger mr.count(a), mr.count(b)]
                mr.count(a) > 0 && mr.count(b) > 0 && same_key(a, b, with_kind) implies a == b
                && mr.count(a) == 1 by {
                assert(m.count(a) >= mr.count(a));
                assert(m.count(b) >= mr.count(b));
            }
        }
        lemma_sorted_unique(xr, yr, with_kind);
        assert(x =~= seq![x[0]] + xr);
        assert(y =~= seq![y[0]] + yr);
    }
}

/// The content digest does not depend on the order in which a directory
/// walk met the entries: any two arrangements of the same entries, no two
/// sharing a sort key, digest alike.
pub proof fn digest_ignores_entry_order(a: Seq<InventoryEntry>, b: Seq<InventoryEntry>, with_kind: bool)
    requires
        a.to_multiset() == b.to_multiset(),
        keys_unique(a.to_multiset(), with_kind),
    ensures
        digest_spec(a, with_kind) == digest_spec(b, with_kind),
{
    lemma_sort_multiset(a, with_kind);
    lemma_sort_multiset(b, with_kind);
    lemma_sort_sorted(a, with_kind);
    lemma_sort_sorted(b, with_kind);
    lemma_sorted_unique(sort_entries(a, with_kind), sort_entries(b, with_kind), with_kind);
}

} // verus!
