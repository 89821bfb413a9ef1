//! The content of the human-readable reports: the summary of a collected
//! manifest and the verification report of a diff. Colours and output are
//! left to the caller; each line carries a tone or mark that says how it reads.
use vstd::prelude::*;

use crate::manifest::{str_views, CollectionDiff, DiffStatus, HardwareManifest, ManifestDiff};
use crate::sys_info::linux::CpuInfo;
use crate::text::{chars_of, concat, push_all, string_from_chars};

verus! {

/// How a verification report line reads.
#[derive(Debug, Clone, Copy, PartialEq, Eq, Structural)]
pub enum Mark {
    /// A component that matches the baseline.
    Pass,
    /// A component that differs from the baseline.
    Changed,
    /// An identifier of the baseline that the live scan lacks.
    Removed,
    /// An identifier of the live scan that the baseline lacks.
    Added,
    /// The baseline value of a modified component.
    Expected,
    /// The live value of a modified component.
    Actual,
}

/// One line of the verification report.
#[derive(Debug)]
pub struct DiffLine {
    pub mark: Mark,
    pub text: String,
}

impl View for DiffLine {
    type V = (Mark, Seq<char>);

    open spec fn view(&self) -> (Mark, Seq<char>) {
        (self.mark, self.text@)
    }
}

/// How a manifest summary value reads.
#[derive(Debug, Clone, Copy, PartialEq, Eq, Structural)]
pub enum Tone {
    /// A collected identifier.
    Value,
    /// A placeholder for an identifier that could not be collected.
    Warning,
}

/// One line of the manifest summary: a label and its value.
#[derive(Debug)]
pub struct SummaryLine {
    pub label: String,
    pub value: String,
    pub tone: Tone,
}

impl View for SummaryLine {
    type V = (Seq<char>, Seq<char>, Tone);

    open spec fn view(&self) -> (Seq<char>, Seq<char>, Tone) {
        (self.label@, self.value@, self.tone)
    }
}

/// The decimal digit of a value below 10.
pub open spec fn dec_char(d: nat) -> char {
    ((48 + d) as u32) as char
}

/// The decimal representation of `n`, without leading zeros.
pub open spec fn dec_text(n: nat) -> Seq<char>
    decreases n,
{
    if n < 10 {
        seq![dec_char(n)]
    } else {
        dec_text(n / 10).push(dec_char(n % 10))
    }
}

fn dec_chars(n: u64) -> (res: Vec<char>)
    ensures
        res@ == dec_text(n as nat),
    decreases n,
{
    let d = ((48 + n % 10) as u8) as char;
    if n < 10 {
        let mut v: Vec<char> = Vec::new();
        v.push(d);
        assert(v@ =~= seq![dec_char(n as nat)]);
        v
    } else {
        let mut v = dec_chars(n / 10);
        v.push(d);
        v
    }
}

/// The text of a timing signature: its six buckets in decimal, as
/// "[b0, b1, b2, b3, b4, b5]".
pub open spec fn signature_text(sig: [u64; 6]) -> Seq<char> {
    "["@ + dec_text(sig@[0] as nat) + ", "@ + dec_text(sig@[1] as nat) + ", "@ + dec_text(
        sig@[2] as nat,
    ) + ", "@ + dec_text(sig@[3] as nat) + ", "@ + dec_text(sig@[4] as nat) + ", "@ + dec_text(
        sig@[5] as nat,
    ) + "]"@
}

/// Formats a timing signature as "[b0, b1, b2, b3, b4, b5]".
pub fn format_signature(sig: &[u64; 6]) -> (s: String)
    ensures
        s@ == signature_text(*sig),
{
    let sep = chars_of(", ");
    let mut out = chars_of("[");
    push_all(&mut out, &dec_chars(sig[0]));
    push_all(&mut out, &sep);
    push_all(&mut out, &dec_chars(sig[1]));
    push_all(&mut out, &sep);
    push_all(&mut out, &dec_chars(sig[2]));
    push_all(&mut out, &sep);
    push_all(&mut out, &dec_chars(sig[3]));
    push_all(&mut out, &sep);
    push_all(&mut out, &dec_chars(sig[4]));
    push_all(&mut out, &sep);
    push_all(&mut out, &dec_chars(sig[5]));
    push_all(&mut out, &chars_of("]"));
    string_from_chars(&out)
}

/// The text `<str as Debug>::fmt` writes for `s`.
pub uninterp spec fn str_debug(s: Seq<char>) -> Seq<char>;

/// Every character is printable ASCII (space through `~`).
pub open spec fn is_printable_ascii(s: Seq<char>) -> bool {
    forall|i: int| 0 <= i < s.len() ==> 0x20 <= (#[trigger] s[i] as u32) <= 0x7E
}

/// `s` with a backslash before every `"` and every `\`.
pub open spec fn escape_quotes(s: Seq<char>) -> Seq<char>
    decreases s.len(),
{
    if s.len() == 0 {
        Seq::<char>::empty()
    } else if s.last() == '"' || s.last() == '\\' {
        escape_quotes(s.drop_last()) + seq!['\\', s.last()]
    } else {
        escape_quotes(s.drop_last()).push(s.last())
    }
}

/// The Debug text of a string: for printable ASCII, the string in double
/// quotes with `"` and `\` escaped by a backslash; otherwise the named Debug
/// text.
pub open spec fn debug_text(s: Seq<char>) -> Seq<char> {
    if is_printable_ascii(s) {
        "\""@ + escape_quotes(s) + "\""@
    } else {
        str_debug(s)
    }
}

/// Calls `<str as Debug>::fmt` (std) through `format!("{:?}", s)`, which
/// writes the string in double quotes with its characters escaped as
/// `char::escape_debug` does. Stated: the result is the named Debug text, and
/// for printable ASCII only `"` and `\` are escaped (each by a backslash).
/// Not stated: the escapes of control and non-ASCII characters, which depend on
/// Unicode tables.
#[verifier::external_body]
fn debug_quoted(s: &str) -> (res: String)
    ensures
        res@ == str_debug(s@),
        is_printable_ascii(s@) ==> res@ == "\""@ + escape_quotes(s@) + "\""@,
{
    format!("{:?}", s)
}

/// The Debug text of an optional serial, as `{:?}` writes an
/// `Option<String>`: `Some(<debug text>)` or `None`.
pub open spec fn opt_serial_text(o: Option<String>) -> Seq<char> {
    match o {
        Some(s) => "Some("@ + debug_text(s@) + ")"@,
        None => "None"@,
    }
}

fn format_opt_serial(o: &Option<String>) -> (s: String)
    ensures
        s@ == opt_serial_text(*o),
{
    match o {
        Some(serial) => {
            let quoted = debug_quoted(serial.as_str());
            let mut out = chars_of("Some(");
            push_all(&mut out, &chars_of(quoted.as_str()));
            push_all(&mut out, &chars_of(")"));
            string_from_chars(&out)
        },
        None => string_from_chars(&chars_of("None")),
    }
}

/// The text of CPU identity fields: the model name followed by the other
/// fields, "<model name> (family <f>, model <m>, stepping <s>, microcode
/// <u>, cache <c>, cpuid level <l>)".
pub open spec fn cpu_info_text(f: Seq<Seq<char>>) -> Seq<char> {
    f[0] + " (family "@ + f[1] + ", model "@ + f[2] + ", stepping "@ + f[3] + ", microcode "@
        + f[4] + ", cache "@ + f[5] + ", cpuid level "@ + f[6] + ")"@
}

fn format_cpu_info(info: &CpuInfo) -> (s: String)
    ensures
        s@ == cpu_info_text(info.fields()),
{
    let mut out = chars_of(info.model_name.as_str());
    push_all(&mut out, &chars_of(" (family "));
    push_all(&mut out, &chars_of(info.cpu_family.as_str()));
    push_all(&mut out, &chars_of(", model "));
    push_all(&mut out, &chars_of(info.model.as_str()));
    push_all(&mut out, &chars_of(", stepping "));
    push_all(&mut out, &chars_of(info.stepping.as_str()));
    push_all(&mut out, &chars_of(", microcode "));
    push_all(&mut out, &chars_of(info.microcode.as_str()));
    push_all(&mut out, &chars_of(", cache "));
    push_all(&mut out, &chars_of(info.cache_size.as_str()));
    push_all(&mut out, &chars_of(", cpuid level "));
    push_all(&mut out, &chars_of(info.cpuid_level.as_str()));
    push_all(&mut out, &chars_of(")"));
    string_from_chars(&out)
}

/// The items of a collection, each with the given mark.
pub open spec fn marked(items: Seq<Seq<char>>, mark: Mark) -> Seq<(Mark, Seq<char>)> {
    items.map_values(|t: Seq<char>| (mark, t))
}

/// The report of one collection: an OK line when nothing was added or is
/// missing; otherwise a modified line, then one line per missing identifier,
/// then one per added identifier.
pub open spec fn collection_report_spec(label: Seq<char>, c: CollectionDiff) -> Seq<
    (Mark, Seq<char>),
> {
    if c.identical() {
        seq![(Mark::Pass, label)]
    } else {
        seq![(Mark::Changed, label)] + marked(str_views(c.missing@), Mark::Removed) + marked(
            str_views(c.added@),
            Mark::Added,
        )
    }
}

/// The report of a collection diff says whether anything changed and lists
/// every change: it is the single OK line exactly when nothing was added and
/// nothing is missing; otherwise it opens with a modified line under the
/// label, and every missing identifier appears marked removed and every added
/// identifier marked added, nothing else being listed.
pub proof fn lemma_collection_report_lists_changes(label: Seq<char>, c: CollectionDiff)
    ensures
        (collection_report_spec(label, c) == seq![(Mark::Pass, label)]) <==> (c.added@.len() == 0
            && c.missing@.len() == 0),
        collection_report_spec(label, c)[0].0 == Mark::Pass <==> (c.added@.len() == 0
            && c.missing@.len() == 0),
        (c.added@.len() > 0 || c.missing@.len() > 0) ==> {
            &&& collection_report_spec(label, c)[0] == (Mark::Changed, label)
            &&& collection_report_spec(label, c).len() == 1 + c.missing@.len() + c.added@.len()
            &&& forall|i: int|
                0 <= i < c.added@.len() ==> collection_report_spec(label, c).contains(
                    (Mark::Added, #[trigger] c.added@[i]@),
                )
            &&& forall|i: int|
                0 <= i < c.missing@.len() ==> collection_report_spec(label, c).contains(
                    (Mark::Removed, #[trigger] c.missing@[i]@),
                )
            &&& forall|x: Seq<char>|
                #![trigger collection_report_spec(label, c).contains((Mark::Added, x))]
                collection_report_spec(label, c).contains((Mark::Added, x)) ==> exists|i: int|
                    0 <= i < c.added@.len() && #[trigger] c.added@[i]@ == x
        },
{
    let r = collection_report_spec(label, c);
    if c.added@.len() > 0 || c.missing@.len() > 0 {
        let m = marked(str_views(c.missing@), Mark::Removed);
        let ad = marked(str_views(c.added@), Mark::Added);
        assert(r == seq![(Mark::Changed, label)] + m + ad);
        assert(r != seq![(Mark::Pass, label)]) by {
            assert(r[0] == (Mark::Changed, label));
        }
        assert forall|i: int| 0 <= i < c.added@.len() implies r.contains(
            (Mark::Added, #[trigger] c.added@[i]@),
        ) by {
            assert(r[1 + m.len() + i] == ad[i]);
        }
        assert forall|i: int| 0 <= i < c.missing@.len() implies r.contains(
            (Mark::Removed, #[trigger] c.missing@[i]@),
        ) by {
            assert(r[1 + i] == m[i]);
        }
        assert forall|x: Seq<char>| r.contains((Mark::Added, x)) implies exists|i: int|
            0 <= i < c.added@.len() && #[trigger] c.added@[i]@ == x by {
            let k = choose|k: int| 0 <= k < r.len() && r[k] == (Mark::Added, x);
            if k == 0 {
            } else if k < 1 + m.len() {
                assert(r[k] == m[k - 1]);
            } else {
                assert(r[k] == ad[k - 1 - m.len()]);
                assert(c.added@[k - 1 - m.len()]@ == x);
            }
        }
    }
}

/// The views of report lines.
pub open spec fn line_views(v: Seq<DiffLine>) -> Seq<(Mark, Seq<char>)> {
    v.map_values(|l: DiffLine| l@)
}

fn push_line(out: &mut Vec<DiffLine>, mark: Mark, text: String)
    ensures
        line_views(final(out)@) == line_views(old(out)@).push((mark, text@)),
{
    let ghost before = line_views(out@);
    let ghost tv = text@;
    out.push(DiffLine { mark, text });
    assert(line_views(out@) =~= before.push((mark, tv)));
}

fn push_marked(out: &mut Vec<DiffLine>, items: &Vec<String>, mark: Mark)
    ensures
        line_views(final(out)@) == line_views(old(out)@) + marked(str_views(items@), mark),
{
    let ghost start = line_views(out@);
    let n = items.len();
    let mut i: usize = 0;
    while i < n
        invariant
            n == items.len(),
            i <= n,
            line_views(out@) == start + marked(str_views(items@), mark).take(i as int),
        decreases n - i,
    {
        push_line(out, mark, items[i].clone());
        assert(marked(str_views(items@), mark).take(i + 1) =~= marked(str_views(items@), mark).take(
            i as int,
        ).push((mark, items@[i as int]@)));
        i = i + 1;
    }
    assert(marked(str_views(items@), mark).take(n as int) =~= marked(str_views(items@), mark));
}

/// The report lines of one collection diff.
pub fn collection_report(label: &str, collection: &CollectionDiff) -> (res: Vec<DiffLine>)
    ensures
        line_views(res@) == collection_report_spec(label@, *collection),
{
    let mut out: Vec<DiffLine> = Vec::new();
    let name = string_from_chars(&chars_of(label));
    if collection.is_identical() {
        push_line(&mut out, Mark::Pass, name);
        assert(line_views(out@) =~= seq![(Mark::Pass, label@)]);
    } else {
        push_line(&mut out, Mark::Changed, name);
        assert(line_views(out@) =~= seq![(Mark::Changed, label@)]);
        push_marked(&mut out, &collection.missing, Mark::Removed);
        push_marked(&mut out, &collection.added, Mark::Added);
    }
    out
}

/// The report of a scalar component: an OK line, or a modified line followed
/// by the expected and the actual value.
pub open spec fn scalar_report_spec(
    label: Seq<char>,
    unchanged: bool,
    expected: Seq<char>,
    actual: Seq<char>,
) -> Seq<(Mark, Seq<char>)> {
    if unchanged {
        seq![(Mark::Pass, label)]
    } else {
        seq![(Mark::Changed, label), (Mark::Expected, expected), (Mark::Actual, actual)]
    }
}

/// The verification report of a whole diff: motherboard serial, CPU timing
/// signature, CPU identity, then the RAM, storage, GPU and MAC collections.
/// A modified motherboard serial shows its Debug text. The timing signature is
/// the six-bucket array, shown in decimal, and the CPU identity section
/// reports the exactly compared `/proc/cpuinfo` fields; both are part of the
/// manifest this report describes.
pub open spec fn diff_report_spec(d: ManifestDiff) -> Seq<(Mark, Seq<char>)> {
    scalar_report_spec(
        "Motherboard Serial"@,
        d.motherboard is Unchanged,
        match d.motherboard {
            DiffStatus::Modified { expected, .. } => opt_serial_text(expected),
            DiffStatus::Unchanged => Seq::<char>::empty(),
        },
        match d.motherboard {
            DiffStatus::Modified { actual, .. } => opt_serial_text(actual),
            DiffStatus::Unchanged => Seq::<char>::empty(),
        },
    ) + scalar_report_spec(
        "CPU Timing Signature"@,
        d.cpu is Unchanged,
        match d.cpu {
            DiffStatus::Modified { expected, .. } => signature_text(expected),
            DiffStatus::Unchanged => Seq::<char>::empty(),
        },
        match d.cpu {
            DiffStatus::Modified { actual, .. } => signature_text(actual),
            DiffStatus::Unchanged => Seq::<char>::empty(),
        },
    ) + scalar_report_spec(
        "CPU Identity"@,
        d.cpu_info is Unchanged,
        match d.cpu_info {
            DiffStatus::Modified { expected, .. } => cpu_info_text(expected.fields()),
            DiffStatus::Unchanged => Seq::<char>::empty(),
        },
        match d.cpu_info {
            DiffStatus::Modified { actual, .. } => cpu_info_text(actual.fields()),
            DiffStatus::Unchanged => Seq::<char>::empty(),
        },
    ) + collection_report_spec("RAM Serials"@, d.ram) + collection_report_spec(
        "Storage Drives"@,
        d.drives,
    ) + collection_report_spec("GPU UUIDs"@, d.gpus) + collection_report_spec(
        "MAC Addresses"@,
        d.macs,
    )
}

fn push_all_lines(out: &mut Vec<DiffLine>, more: Vec<DiffLine>)
    ensures
        line_views(final(out)@) == line_views(old(out)@) + line_views(more@),
{
    let ghost a = line_views(out@);
    let ghost b = line_views(more@);
    let mut more = more;
    out.append(&mut more);
    assert(line_views(out@) =~= a + b);
}

fn scalar_lines(label: &str, modified: Option<(String, String)>) -> (res: Vec<DiffLine>)
    ensures
        line_views(res@) == match modified {
            Some(p) => scalar_report_spec(label@, false, p.0@, p.1@),
            None => scalar_report_spec(label@, true, Seq::<char>::empty(), Seq::<char>::empty()),
        },
{
    let mut out: Vec<DiffLine> = Vec::new();
    let name = string_from_chars(&chars_of(label));
    match modified {
        Some((expected, actual)) => {
            push_line(&mut out, Mark::Changed, name);
            push_line(&mut out, Mark::Expected, expected);
            push_line(&mut out, Mark::Actual, actual);
        },
        None => {
            push_line(&mut out, Mark::Pass, name);
        },
    }
    assert(line_views(out@) =~= match modified {
        Some(p) => scalar_report_spec(label@, false, p.0@, p.1@),
        None => scalar_report_spec(label@, true, Seq::<char>::empty(), Seq::<char>::empty()),
    });
    out
}

/// The lines of the verification report of a diff.
pub fn diff_report(diff: &ManifestDiff) -> (res: Vec<DiffLine>)
    ensures
        line_views(res@) == diff_report_spec(*diff),
{
    let mobo = match &diff.motherboard {
        DiffStatus::Unchanged => None,
        DiffStatus::Modified { expected, actual } => Some(
            (format_opt_serial(expected), format_opt_serial(actual)),
        ),
    };
    let cpu = match &diff.cpu {
        DiffStatus::Unchanged => None,
        DiffStatus::Modified { expected, actual } => Some(
            (format_signature(expected), format_signature(actual)),
        ),
    };
    let info = match &diff.cpu_info {
        DiffStatus::Unchanged => None,
        DiffStatus::Modified { expected, actual } => Some(
            (format_cpu_info(expected), format_cpu_info(actual)),
        ),
    };
    let mut out = scalar_lines("Motherboard Serial", mobo);
    push_all_lines(&mut out, scalar_lines("CPU Timing Signature", cpu));
    push_all_lines(&mut out, scalar_lines("CPU Identity", info));
    push_all_lines(&mut out, collection_report("RAM Serials", &diff.ram));
    push_all_lines(&mut out, collection_report("Storage Drives", &diff.drives));
    push_all_lines(&mut out, collection_report("GPU UUIDs", &diff.gpus));
    push_all_lines(&mut out, collection_report("MAC Addresses", &diff.macs));
    out
}

/// The views of summary lines.
pub open spec fn summary_views(v: Seq<SummaryLine>) -> Seq<(Seq<char>, Seq<char>, Tone)> {
    v.map_values(|l: SummaryLine| l@)
}

/// The summary of one list of identifiers: "<item> [<i>]" and the
/// identifier for each entry, or a single "None found" warning under the
/// list's name when it is empty.
pub open spec fn list_section(list_name: Seq<char>, item_name: Seq<char>, items: Seq<Seq<char>>) -> Seq<
    (Seq<char>, Seq<char>, Tone),
> {
    if items.len() == 0 {
        seq![(list_name, "None found"@, Tone::Warning)]
    } else {
        Seq::new(
            items.len(),
            |i: int| (item_name + " ["@ + dec_text(i as nat) + "]"@, items[i], Tone::Value),
        )
    }
}

/// The summary of a collected manifest: motherboard serial (or a "Not
/// available" warning), CPU timing signature, CPU identity, then the RAM,
/// drive, GPU and MAC lists.
pub open spec fn manifest_summary_spec(m: HardwareManifest) -> Seq<(Seq<char>, Seq<char>, Tone)> {
    seq![
        match m.motherboard_serial {
            Some(s) => ("Motherboard Serial"@, s@, Tone::Value),
            None => ("Motherboard Serial"@, "Not available"@, Tone::Warning),
        },
        ("CPU Signature"@, signature_text(m.cpu_timing_signature), Tone::Value),
        ("CPU Identity"@, cpu_info_text(m.cpu_info.fields()), Tone::Value),
    ] + list_section("RAM Serials"@, "RAM Serial"@, str_views(m.ram_serials@)) + list_section(
        "Drive Serials"@,
        "Drive Serial"@,
        str_views(m.drive_serials@),
    ) + list_section("GPU UUIDs"@, "GPU UUID"@, str_views(m.gpu_uuids@)) + list_section(
        "MAC Addresses"@,
        "MAC Address"@,
        str_views(m.mac_addresses@),
    )
}

/// The number of summary lines a list of `n` identifiers takes: one per
/// identifier, or the single "None found" warning.
pub open spec fn section_len(n: nat) -> nat {
    if n == 0 {
        1
    } else {
        n
    }
}

/// The lines of `r` from `start` on show the list `items`: the line at
/// `start + i` is labelled "<item_name> [<i>]" and carries `items[i]`; or, for
/// an empty list, the line at `start` is the "None found" warning under
/// `list_name`.
pub open spec fn shows_list(
    r: Seq<(Seq<char>, Seq<char>, Tone)>,
    start: nat,
    list_name: Seq<char>,
    item_name: Seq<char>,
    items: Seq<Seq<char>>,
) -> bool {
    if items.len() == 0 {
        r[start as int] == (list_name, "None found"@, Tone::Warning)
    } else {
        forall|i: int|
            0 <= i < items.len() ==> r[start + i] == (item_name + " ["@ + dec_text(i as nat) + "]"@,
                #[trigger] items[i], Tone::Value)
    }
}

proof fn lemma_section_in_place(
    pre: Seq<(Seq<char>, Seq<char>, Tone)>,
    post: Seq<(Seq<char>, Seq<char>, Tone)>,
    list_name: Seq<char>,
    item_name: Seq<char>,
    items: Seq<Seq<char>>,
)
    ensures
        list_section(list_name, item_name, items).len() == section_len(items.len()),
        shows_list(
            pre + list_section(list_name, item_name, items) + post,
            pre.len(),
            list_name,
            item_name,
            items,
        ),
{
    let sec = list_section(list_name, item_name, items);
    let r = pre + sec + post;
    if items.len() > 0 {
        assert forall|i: int| 0 <= i < items.len() implies r[pre.len() + i] == (item_name + " ["@
            + dec_text(i as nat) + "]"@, #[trigger] items[i], Tone::Value) by {
            assert(r[pre.len() + i] == sec[i]);
        }
    } else {
        assert(r[pre.len() as int] == sec[0]);
    }
}

/// The manifest summary shows every field of the manifest in its own place:
/// the motherboard serial (or a "Not available" warning), the CPU signature
/// and identity, then the RAM serials, drive serials, GPU UUIDs and MAC
/// addresses, each list in its own section, in order and item for item,
/// labelled by its own name, and a "None found" warning only for an empty list.
pub proof fn lemma_summary_sections(m: HardwareManifest)
    ensures
        ({
            let r = manifest_summary_spec(m);
            let ram = str_views(m.ram_serials@);
            let drives = str_views(m.drive_serials@);
            let gpus = str_views(m.gpu_uuids@);
            let macs = str_views(m.mac_addresses@);
            let at_drives = 3 + section_len(ram.len());
            let at_gpus = at_drives + section_len(drives.len());
            let at_macs = at_gpus + section_len(gpus.len());
            &&& r.len() == at_macs + section_len(macs.len())
            &&& r[0] == match m.motherboard_serial {
                Some(s) => ("Motherboard Serial"@, s@, Tone::Value),
                None => ("Motherboard Serial"@, "Not available"@, Tone::Warning),
            }
            &&& r[1] == ("CPU Signature"@, signature_text(m.cpu_timing_signature), Tone::Value)
            &&& r[2] == ("CPU Identity"@, cpu_info_text(m.cpu_info.fields()), Tone::Value)
            &&& shows_list(r, 3, "RAM Serials"@, "RAM Serial"@, ram)
            &&& shows_list(r, at_drives, "Drive Serials"@, "Drive Serial"@, drives)
            &&& shows_list(r, at_gpus, "GPU UUIDs"@, "GPU UUID"@, gpus)
            &&& shows_list(r, at_macs, "MAC Addresses"@, "MAC Address"@, macs)
        }),
{
    let r = manifest_summary_spec(m);
    let ram = str_views(m.ram_serials@);
    let drives = str_views(m.drive_serials@);
    let gpus = str_views(m.gpu_uuids@);
    let macs = str_views(m.mac_addresses@);
    let head = seq![
        match m.motherboard_serial {
            Some(s) => ("Motherboard Serial"@, s@, Tone::Value),
            None => ("Motherboard Serial"@, "Not available"@, Tone::Warning),
        },
        ("CPU Signature"@, signature_text(m.cpu_timing_signature), Tone::Value),
        ("CPU Identity"@, cpu_info_text(m.cpu_info.fields()), Tone::Value),
    ];
    let l1 = list_section("RAM Serials"@, "RAM Serial"@, ram);
    let l2 = list_section("Drive Serials"@, "Drive Serial"@, drives);
    let l3 = list_section("GPU UUIDs"@, "GPU UUID"@, gpus);
    let l4 = list_section("MAC Addresses"@, "MAC Address"@, macs);
    let empty = Seq::<(Seq<char>, Seq<char>, Tone)>::empty();
    assert(r == head + l1 + l2 + l3 + l4);
    lemma_section_in_place(head, l2 + l3 + l4, "RAM Serials"@, "RAM Serial"@, ram);
    assert(r =~= head + l1 + (l2 + l3 + l4));
    lemma_section_in_place(head + l1, l3 + l4, "Drive Serials"@, "Drive Serial"@, drives);
    assert(r =~= head + l1 + l2 + (l3 + l4));
    lemma_section_in_place(head + l1 + l2, l4, "GPU UUIDs"@, "GPU UUID"@, gpus);
    lemma_section_in_place(head + l1 + l2 + l3, empty, "MAC Addresses"@, "MAC Address"@, macs);
    assert(r =~= head + l1 + l2 + l3 + l4 + empty);
}

fn push_summary(out: &mut Vec<SummaryLine>, label: String, value: String, tone: Tone)
    ensures
        summary_views(final(out)@) == summary_views(old(out)@).push((label@, value@, tone)),
{
    let ghost before = summary_views(out@);
    let ghost lv = label@;
    let ghost vv = value@;
    out.push(SummaryLine { label, value, tone });
    assert(summary_views(out@) =~= before.push((lv, vv, tone)));
}

fn push_list_section(out: &mut Vec<SummaryLine>, list_name: &str, item_name: &str, items: &Vec<String>)
    ensures
        summary_views(final(out)@) == summary_views(old(out)@) + list_section(
            list_name@,
            item_name@,
            str_views(items@),
        ),
{
    let ghost start = summary_views(out@);
    let n = items.len();
    if n == 0 {
        push_summary(
            out,
            string_from_chars(&chars_of(list_name)),
            string_from_chars(&chars_of("None found")),
            Tone::Warning,
        );
        assert(summary_views(out@) =~= start + list_section(
            list_name@,
            item_name@,
            str_views(items@),
        ));
        return;
    }
    let ghost sec = list_section(list_name@, item_name@, str_views(items@));
    let open = chars_of(" [");
    let close = chars_of("]");
    let name = chars_of(item_name);
    let mut i: usize = 0;
    while i < n
        invariant
            n == items.len(),
            n > 0,
            i <= n,
            open@ == " ["@,
            close@ == "]"@,
            name@ == item_name@,
            sec == list_section(list_name@, item_name@, str_views(items@)),
            summary_views(out@) == start + sec.take(i as int),
        decreases n - i,
    {
        let mut label = concat(&name, &open);
        push_all(&mut label, &dec_chars(i as u64));
        push_all(&mut label, &close);
        push_summary(out, string_from_chars(&label), items[i].clone(), Tone::Value);
        assert(sec.take(i + 1) =~= sec.take(i as int).push(sec[i as int]));
        i = i + 1;
    }
    assert(sec.take(n as int) =~= sec);
}

/// The lines of the summary of a collected manifest.
pub fn manifest_summary(manifest: &HardwareManifest) -> (res: Vec<SummaryLine>)
    ensures
        summary_views(res@) == manifest_summary_spec(*manifest),
{
    let mut out: Vec<SummaryLine> = Vec::new();
    let mobo_label = string_from_chars(&chars_of("Motherboard Serial"));
    match &manifest.motherboard_serial {
        Some(s) => push_summary(&mut out, mobo_label, s.clone(), Tone::Value),
        None => push_summary(
            &mut out,
            mobo_label,
            string_from_chars(&chars_of("Not available")),
            Tone::Warning,
        ),
    }
    push_summary(
        &mut out,
        string_from_chars(&chars_of("CPU Signature")),
        format_signature(&manifest.cpu_timing_signature),
        Tone::Value,
    );
    push_summary(
        &mut out,
        string_from_chars(&chars_of("CPU Identity")),
        format_cpu_info(&manifest.cpu_info),
        Tone::Value,
    );
    push_list_section(&mut out, "RAM Serials", "RAM Serial", &manifest.ram_serials);
    push_list_section(&mut out, "Drive Serials", "Drive Serial", &manifest.drive_serials);
    push_list_section(&mut out, "GPU UUIDs", "GPU UUID", &manifest.gpu_uuids);
    push_list_section(&mut out, "MAC Addresses", "MAC Address", &manifest.mac_addresses);
    out
}

} // verus!
