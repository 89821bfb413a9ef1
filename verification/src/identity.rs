//! Assembly of a hardware manifest from the collected identifiers: the MAC
//! list in a canonical order and a machine id derived from the immutable
//! identifiers.
use vstd::prelude::*;
use vstd::relations::{sorted_by, total_ordering};
use vstd::seq_lib::{group_to_multiset_ensures, lemma_sorted_unique};

use vstd::bytes::{spec_u64_to_le_bytes, u64_to_le_bytes};
use vstd::std_specs::hash::DefaultHasherAdditionalSpecFns;
use vstd::utf8::encode_utf8;

use std::hash::{DefaultHasher, Hasher};

use crate::manifest::{opt_view, str_views, HardwareManifest};
use crate::sys_info::linux::CpuInfo;
use crate::text::{char_views, chars_of, concat, strings_from};

verus! {

/// Lexicographic order on texts by character (code point), which is the order of
/// `String`'s `Ord` (UTF-8 byte order agrees with code point order).
pub open spec fn text_leq(a: Seq<char>, b: Seq<char>) -> bool
    decreases a.len(),
{
    if a.len() == 0 {
        true
    } else if b.len() == 0 {
        false
    } else if a[0] != b[0] {
        a[0] < b[0]
    } else {
        text_leq(a.drop_first(), b.drop_first())
    }
}

/// `text_leq` as a relation.
pub open spec fn text_order() -> spec_fn(Seq<char>, Seq<char>) -> bool {
    |a: Seq<char>, b: Seq<char>| text_leq(a, b)
}

/// The texts in ascending lexicographic order.
pub open spec fn sorted_texts(s: Seq<Seq<char>>) -> Seq<Seq<char>> {
    s.sort_by(text_order())
}

proof fn lemma_text_leq_reflexive(a: Seq<char>)
    ensures
        text_leq(a, a),
    decreases a.len(),
{
    if a.len() > 0 {
        lemma_text_leq_reflexive(a.drop_first());
    }
}

proof fn lemma_text_leq_antisymmetric(a: Seq<char>, b: Seq<char>)
    requires
        text_leq(a, b),
        text_leq(b, a),
    ensures
        a == b,
    decreases a.len(),
{
    if a.len() > 0 && b.len() > 0 {
        lemma_text_leq_antisymmetric(a.drop_first(), b.drop_first());
        assert(a =~= seq![a[0]] + a.drop_first());
        assert(b =~= seq![b[0]] + b.drop_first());
    } else {
        assert(a =~= b);
    }
}

proof fn lemma_text_leq_transitive(a: Seq<char>, b: Seq<char>, c: Seq<char>)
    requires
        text_leq(a, b),
        text_leq(b, c),
    ensures
        text_leq(a, c),
    decreases a.len(),
{
    if a.len() > 0 && b.len() > 0 && c.len() > 0 {
        if a[0] == b[0] && b[0] == c[0] {
            lemma_text_leq_transitive(a.drop_first(), b.drop_first(), c.drop_first());
        }
    }
}

proof fn lemma_text_leq_total(a: Seq<char>, b: Seq<char>)
    ensures
        text_leq(a, b) || text_leq(b, a),
    decreases a.len(),
{
    if a.len() > 0 && b.len() > 0 {
        if a[0] == b[0] {
            lemma_text_leq_total(a.drop_first(), b.drop_first());
        } else {
        }
    }
}

/// Lexicographic order on texts is a total order.
pub proof fn lemma_text_order_total()
    ensures
        total_ordering(text_order()),
{
    assert forall|a: Seq<char>| #[trigger] (text_order())(a, a) by {
        lemma_text_leq_reflexive(a);
    }
    assert forall|a: Seq<char>, b: Seq<char>, c: Seq<char>|
        #[trigger] (text_order())(a, b) && #[trigger] (text_order())(b, c) implies (text_order())(
        a,
        c,
    ) by {
        lemma_text_leq_transitive(a, b, c);
    }
    assert forall|a: Seq<char>, b: Seq<char>|
        #[trigger] (text_order())(a, b) && #[trigger] (text_order())(b, a) implies a == b by {
        lemma_text_leq_antisymmetric(a, b);
    }
    assert forall|a: Seq<char>, b: Seq<char>|
        #[trigger] (text_order())(a, b) || #[trigger] (text_order())(b, a) by {
        lemma_text_leq_total(a, b);
    }
}

/// Whether `a` precedes or equals `b` lexicographically.
fn text_leq_exec(a: &Vec<char>, b: &Vec<char>) -> (r: bool)
    ensures
        r == text_leq(a@, b@),
{
    let n = a.len();
    let m = b.len();
    let mut i: usize = 0;
    assert(a@.subrange(0, n as int) =~= a@);
    assert(b@.subrange(0, m as int) =~= b@);
    while i < n && i < m && a[i] == b[i]
        invariant
            n == a.len(),
            m == b.len(),
            i <= n,
            i <= m,
            text_leq(a@, b@) == text_leq(a@.subrange(i as int, n as int), b@.subrange(i as int, m as int)),
        decreases n - i,
    {
        let ghost sa = a@.subrange(i as int, n as int);
        let ghost sb = b@.subrange(i as int, m as int);
        assert(sa.drop_first() =~= a@.subrange(i + 1, n as int));
        assert(sb.drop_first() =~= b@.subrange(i + 1, m as int));
        i = i + 1;
    }
    assert(a@.subrange(0, n as int) =~= a@);
    assert(b@.subrange(0, m as int) =~= b@);
    if i == n {
        true
    } else if i == m {
        false
    } else {
        let ghost sa = a@.subrange(i as int, n as int);
        let ghost sb = b@.subrange(i as int, m as int);
        assert(sa[0] == a@[i as int] && sb[0] == b@[i as int]);
        a[i] < b[i]
    }
}

/// The given texts in ascending lexicographic order.
pub fn sort_texts(v: Vec<Vec<char>>) -> (res: Vec<Vec<char>>)
    ensures
        char_views(res@) == sorted_texts(char_views(v@)),
{
    broadcast use group_to_multiset_ensures;

    let ghost input = char_views(v@);
    let mut rest = v;
    let mut res: Vec<Vec<char>> = Vec::new();
    let n = rest.len();
    let mut i: usize = 0;
    assert(input.take(0) =~= Seq::<Seq<char>>::empty());
    assert(char_views(res@) =~= Seq::<Seq<char>>::empty());
    while i < n
        invariant
            n == rest.len(),
            input == char_views(rest@),
            i <= n,
            sorted_by(char_views(res@), text_order()),
            char_views(res@).to_multiset() == input.take(i as int).to_multiset(),
        decreases n - i,
    {
        let x: Vec<char> = crate::text::slice_chars(&rest[i], 0, rest[i].len());
        assert(x@ =~= input[i as int]);
        let m = res.len();
        let mut j: usize = 0;
        while j < m && text_leq_exec(&res[j], &x)
            invariant
                m == res.len(),
                j <= m,
                forall|k: int| 0 <= k < j ==> text_leq(#[trigger] char_views(res@)[k], x@),
            decreases m - j,
        {
            j = j + 1;
        }
        let ghost old_res = char_views(res@);
        let ghost xv = x@;
        res.insert(j, x);
        assert(char_views(res@) =~= old_res.insert(j as int, xv));
        let ghost cur = char_views(res@);
        proof {
            lemma_text_order_total();
            if j < m {
                lemma_text_leq_total(old_res[j as int], xv);
            }
        }
        assert forall|a: int, b: int| 0 <= a < b < cur.len() implies #[trigger] (text_order())(
            cur[a],
            cur[b],
        ) by {
            lemma_text_order_total();
            if b < j {
                assert((text_order())(old_res[a], old_res[b]));
            } else if b == j {
                assert(cur[a] == old_res[a]);
                assert(text_leq(old_res[a], xv));
            } else if a < j {
                assert(cur[b] == old_res[b - 1]);
                assert(cur[a] == old_res[a]);
                assert(text_leq(old_res[a], xv));
                assert(text_leq(xv, old_res[j as int]));
                if j < b - 1 {
                    assert((text_order())(old_res[j as int], old_res[b - 1]));
                }
                lemma_text_leq_transitive(old_res[a], xv, old_res[j as int]);
                if j < b - 1 {
                    lemma_text_leq_transitive(old_res[a], old_res[j as int], old_res[b - 1]);
                }
            } else if a == j {
                assert(cur[b] == old_res[b - 1]);
                assert(text_leq(xv, old_res[j as int]));
                if j < b - 1 {
                    assert((text_order())(old_res[j as int], old_res[b - 1]));
                    lemma_text_leq_transitive(xv, old_res[j as int], old_res[b - 1]);
                }
            } else {
                assert((text_order())(old_res[a - 1], old_res[b - 1]));
            }
        }
        assert(input.take(i + 1) =~= input.take(i as int).push(xv));
        proof {
            vstd::seq_lib::to_multiset_insert(old_res, j as int, xv);
            vstd::seq_lib::to_multiset_build(input.take(i as int), xv);
        }
        i = i + 1;
    }
    assert(input.take(n as int) =~= input);
    proof {
        lemma_text_order_total();
        input.lemma_sort_by_ensures(text_order());
        lemma_sorted_unique(char_views(res@), sorted_texts(input), text_order());
    }
    res
}

/// The uppercase hexadecimal digit of a value below 16.
pub open spec fn hex_char(d: nat) -> char {
    if d < 10 {
        ((48 + d) as u32) as char
    } else {
        ((55 + d) as u32) as char
    }
}

/// The last `n` uppercase hexadecimal digits of `h`, most significant first.
pub open spec fn hex_digits(h: nat, n: nat) -> Seq<char>
    decreases n,
{
    if n == 0 {
        Seq::<char>::empty()
    } else {
        hex_digits(h / 16, (n - 1) as nat).push(hex_char(h % 16))
    }
}

/// The machine id text for a hash: "HW-" and the hash as 16 uppercase
/// hexadecimal digits, zero padded (`format!("HW-{:016X}", hash)`).
pub open spec fn machine_id_text(hash: u64) -> Seq<char> {
    "HW-"@ + hex_digits(hash as nat, 16)
}

fn hex_char_exec(d: u64) -> (c: char)
    requires
        d < 16,
    ensures
        c == hex_char(d as nat),
{
    if d < 10 {
        ((48 + d) as u8) as char
    } else {
        ((55 + d) as u8) as char
    }
}

fn hex_digits_exec(h: u64, n: u64) -> (res: Vec<char>)
    ensures
        res@ == hex_digits(h as nat, n as nat),
    decreases n,
{
    if n == 0 {
        Vec::new()
    } else {
        let mut v = hex_digits_exec(h / 16, n - 1);
        v.push(hex_char_exec(h % 16));
        v
    }
}

/// Formats a hash as a machine id: "HW-" and 16 uppercase hexadecimal digits.
pub fn format_machine_id(hash: u64) -> (id: String)
    ensures
        id@ == machine_id_text(hash),
{
    let prefix = chars_of("HW-");
    let digits = hex_digits_exec(hash, 16);
    crate::text::string_from_chars(&concat(&prefix, &digits))
}

/// The writes that feed an identifier to the hasher, as `String`'s `Hash`
/// makes them: its UTF-8 bytes, then the byte 0xff.
pub open spec fn text_writes(t: Seq<char>) -> Seq<Seq<u8>> {
    seq![encode_utf8(t), seq![0xffu8]]
}

/// The writes of a list of identifiers, in order.
pub open spec fn texts_writes(ts: Seq<Seq<char>>) -> Seq<Seq<u8>>
    decreases ts.len(),
{
    if ts.len() == 0 {
        Seq::<Seq<u8>>::empty()
    } else {
        texts_writes(ts.drop_last()) + text_writes(ts.last())
    }
}

/// The writes of the six buckets, each as 8 little-endian bytes.
pub open spec fn bucket_writes(sig: Seq<u64>) -> Seq<Seq<u8>> {
    Seq::new(6, |i: int| spec_u64_to_le_bytes(sig[i]))
}

/// The writes of the timing signature, as `Hash for [u64; 6]` makes them on
/// a 64-bit little-endian machine: the length 6 as 8 little-endian bytes,
/// then the buckets (the hasher only sees the concatenated bytes). Fixing the
/// byte order keeps the machine id the same on every machine.
pub open spec fn signature_writes(sig: Seq<u64>) -> Seq<Seq<u8>> {
    seq![spec_u64_to_le_bytes(6)] + bucket_writes(sig)
}

/// Everything the machine id is hashed from: the motherboard serial (when
/// known), the timing signature, and the MAC addresses in the given order.
pub open spec fn id_writes(serial: Option<Seq<char>>, sig: Seq<u64>, macs: Seq<Seq<char>>) -> Seq<
    Seq<u8>,
> {
    (match serial {
        Some(t) => text_writes(t),
        None => Seq::<Seq<u8>>::empty(),
    }) + signature_writes(sig) + texts_writes(macs)
}

/// The machine id of the given immutable identifiers: "HW-" and the
/// `DefaultHasher` hash of their writes in 16 hexadecimal digits.
pub open spec fn machine_id_of(serial: Option<Seq<char>>, sig: Seq<u64>, macs: Seq<Seq<char>>) -> Seq<
    char,
> {
    machine_id_text(DefaultHasher::spec_finish(id_writes(serial, sig, macs)))
}

fn hash_text_into(hasher: &mut DefaultHasher, t: &String)
    ensures
        final(hasher)@ == old(hasher)@ + text_writes(t@),
{
    let bytes = t.as_str().as_bytes();
    hasher.write(bytes);
    let end: [u8; 1] = [0xff];
    hasher.write(end.as_slice());
    assert(end@ =~= seq![0xffu8]);
    assert(old(hasher)@.push(encode_utf8(t@)).push(seq![0xffu8]) =~= old(hasher)@ + text_writes(t@));
}

/// Assembles a manifest from the collected identifiers. The MAC addresses are
/// sorted so that the manifest does not depend on the order in which the
/// interfaces were enumerated, and the machine id is "HW-" followed by the 16
/// hexadecimal digits of the `DefaultHasher` hash of the motherboard serial
/// (when known), the CPU timing signature and the sorted MAC addresses.
pub fn collect_hardware_manifest(
    motherboard_serial: Option<String>,
    cpu_timing_signature: [u64; 6],
    cpu_info: CpuInfo,
    ram_serials: Vec<String>,
    drive_serials: Vec<String>,
    gpu_uuids: Vec<String>,
    mac_addresses: Vec<String>,
) -> (m: HardwareManifest)
    ensures
        m.motherboard_serial == motherboard_serial,
        m.cpu_timing_signature == cpu_timing_signature,
        m.cpu_info == cpu_info,
        m.ram_serials == ram_serials,
        m.drive_serials == drive_serials,
        m.gpu_uuids == gpu_uuids,
        str_views(m.mac_addresses@) == sorted_texts(str_views(mac_addresses@)),
        m.machine_id@ == machine_id_of(
            opt_view(motherboard_serial),
            cpu_timing_signature@,
            sorted_texts(str_views(mac_addresses@)),
        ),
        motherboard_serial is None ==> m.machine_id@ == machine_id_text(
            DefaultHasher::spec_finish(
                signature_writes(cpu_timing_signature@) + texts_writes(
                    sorted_texts(str_views(mac_addresses@)),
                ),
            ),
        ),
{
    let mut mac_chars: Vec<Vec<char>> = Vec::new();
    let n = mac_addresses.len();
    let mut i: usize = 0;
    while i < n
        invariant
            n == mac_addresses.len(),
            i <= n,
            char_views(mac_chars@) == str_views(mac_addresses@).take(i as int),
        decreases n - i,
    {
        let c = chars_of(mac_addresses[i].as_str());
        let ghost before = char_views(mac_chars@);
        let ghost cv = c@;
        mac_chars.push(c);
        assert(char_views(mac_chars@) =~= before.push(cv));
        assert(str_views(mac_addresses@).take(i + 1) =~= str_views(mac_addresses@).take(
            i as int,
        ).push(cv));
        i = i + 1;
    }
    assert(str_views(mac_addresses@).take(n as int) =~= str_views(mac_addresses@));
    let sorted = sort_texts(mac_chars);
    let sorted_macs = strings_from(&sorted);
    assert(str_views(sorted_macs@) =~= char_views(sorted@));

    let mut hasher = DefaultHasher::new();
    match &motherboard_serial {
        Some(serial) => hash_text_into(&mut hasher, serial),
        None => {},
    }
    let ghost before_sig = hasher@;
    let length = u64_to_le_bytes(6);
    hasher.write(length.as_slice());
    let ghost head = hasher@;
    let mut b: usize = 0;
    while b < 6
        invariant
            b <= 6,
            hasher@ == head + bucket_writes(cpu_timing_signature@).take(b as int),
        decreases 6 - b,
    {
        let bytes = u64_to_le_bytes(cpu_timing_signature[b]);
        hasher.write(bytes.as_slice());
        assert(bucket_writes(cpu_timing_signature@).take(b + 1) =~= bucket_writes(
            cpu_timing_signature@,
        ).take(b as int).push(spec_u64_to_le_bytes(cpu_timing_signature@[b as int])));
        b = b + 1;
    }
    assert(bucket_writes(cpu_timing_signature@).take(6) =~= bucket_writes(
        cpu_timing_signature@,
    ));
    assert(hasher@ =~= before_sig + signature_writes(cpu_timing_signature@));
    let ghost mid = hasher@;
    let ghost sorted_views = str_views(sorted_macs@);
    let k = sorted_macs.len();
    let mut j: usize = 0;
    assert(sorted_views.take(0) =~= Seq::<Seq<char>>::empty());
    assert(mid + texts_writes(sorted_views.take(0)) =~= mid);
    while j < k
        invariant
            k == sorted_macs.len(),
            sorted_views == str_views(sorted_macs@),
            j <= k,
            hasher@ == mid + texts_writes(sorted_views.take(j as int)),
        decreases k - j,
    {
        hash_text_into(&mut hasher, &sorted_macs[j]);
        assert(sorted_views.take(j + 1).drop_last() =~= sorted_views.take(j as int));
        assert(sorted_views.take(j + 1).last() == sorted_macs@[j as int]@);
        assert(mid + texts_writes(sorted_views.take(j as int)) + text_writes(sorted_macs@[j as int]@)
            =~= mid + texts_writes(sorted_views.take(j + 1)));
        j = j + 1;
    }
    assert(sorted_views.take(k as int) =~= sorted_views);
    assert(hasher@ =~= id_writes(
        opt_view(motherboard_serial),
        cpu_timing_signature@,
        sorted_views,
    ));
    let h = hasher.finish();
    let machine_id = format_machine_id(h);

    HardwareManifest {
        machine_id,
        motherboard_serial,
        cpu_timing_signature,
        cpu_info,
        ram_serials,
        drive_serials,
        gpu_uuids,
        mac_addresses: sorted_macs,
    }
}

/// The machine id is the hash of exactly the identifiers that were collected:
/// the motherboard serial contributes its UTF-8 bytes and the 0xff
/// terminator only when it is known, and contributes nothing at all when it
/// is not; then come the timing signature (its length 6 and its six buckets,
/// each as 8 little-endian bytes) and each MAC address's bytes and 0xff.
pub proof fn lemma_machine_id_hashes_collected(
    serial: Option<Seq<char>>,
    sig: Seq<u64>,
    macs: Seq<Seq<char>>,
)
    requires
        sig.len() == 6,
    ensures
        serial is None ==> machine_id_of(serial, sig, macs) == machine_id_text(
            DefaultHasher::spec_finish(
                seq![spec_u64_to_le_bytes(6)] + Seq::new(
                    6,
                    |i: int| spec_u64_to_le_bytes(sig[i]),
                ) + texts_writes(macs),
            ),
        ),
        serial matches Some(t) ==> machine_id_of(serial, sig, macs) == machine_id_text(
            DefaultHasher::spec_finish(
                seq![encode_utf8(t), seq![0xffu8]] + (seq![spec_u64_to_le_bytes(6)] + Seq::new(
                    6,
                    |i: int| spec_u64_to_le_bytes(sig[i]),
                )) + texts_writes(macs),
            ),
        ),
        texts_writes(macs).len() == 2 * macs.len(),
        forall|i: int|
            0 <= i < macs.len() ==> texts_writes(macs)[2 * i] == encode_utf8(#[trigger] macs[i])
                && texts_writes(macs)[2 * i + 1] == seq![0xffu8],
    decreases macs.len(),
{
    let w = id_writes(serial, sig, macs);
    match serial {
        None => {
            assert(w =~= seq![spec_u64_to_le_bytes(6)] + Seq::new(
                6,
                |i: int| spec_u64_to_le_bytes(sig[i]),
            ) + texts_writes(macs));
        },
        Some(t) => {
            assert(w =~= seq![encode_utf8(t), seq![0xffu8]] + (seq![spec_u64_to_le_bytes(6)]
                + Seq::new(6, |i: int| spec_u64_to_le_bytes(sig[i]))) + texts_writes(macs));
        },
    }
    if macs.len() > 0 {
        let init = macs.drop_last();
        lemma_machine_id_hashes_collected(None, sig, init);
        let tw = texts_writes(macs);
        assert(tw == texts_writes(init) + text_writes(macs.last()));
        assert forall|i: int| 0 <= i < macs.len() implies tw[2 * i] == encode_utf8(
            #[trigger] macs[i],
        ) && tw[2 * i + 1] == seq![0xffu8] by {
            if i < macs.len() - 1 {
                assert(init[i] == macs[i]);
            }
        }
    }
}

/// The order in which the network interfaces were enumerated does not
/// matter: any two MAC lists with the same entries (counted with
/// multiplicity) give the same sorted list, and so the same machine id.
pub proof fn lemma_mac_order_irrelevant(
    serial: Option<Seq<char>>,
    sig: Seq<u64>,
    a: Seq<Seq<char>>,
    b: Seq<Seq<char>>,
)
    requires
        a.to_multiset() == b.to_multiset(),
    ensures
        sorted_texts(a) == sorted_texts(b),
        machine_id_of(serial, sig, sorted_texts(a)) == machine_id_of(serial, sig, sorted_texts(b)),
{
    lemma_text_order_total();
    a.lemma_sort_by_ensures(text_order());
    b.lemma_sort_by_ensures(text_order());
    lemma_sorted_unique(sorted_texts(a), sorted_texts(b), text_order());
}

} // verus!
