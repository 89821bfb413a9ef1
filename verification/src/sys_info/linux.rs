//! Parsers for the Linux sources of hardware identifiers (sysfs, procfs,
//! `lsblk`, `dmidecode`, `nvidia-smi`, `lspci`) and the quantisation of the
//! CPU timing signature.
use vstd::prelude::*;
use vstd::utf8::{decode_utf8, valid_utf8};

use crate::manifest::{opt_view, str_views};
use crate::json::{
    as_text, get_member, json_get, json_of, json_str, json_view, read_json, JsonSpec, JsonValue,
};
use crate::text::{
    char_views, chars_of, concat, contains_char, contains_chars, eq_chars, first_token,
    find_from, first_token_chars, has_prefix, matches_at, has_substring, push_all, remove_all, remove_all_chars,
    slice_chars, split_chars, split_on, split_once, split_once_chars, starts_with, string_from_chars, strings_from, trim, trim_chars,
};

verus! {

/// Stable CPU identity fields parsed from `/proc/cpuinfo`.
/// These identify the CPU model (not per-chip unique) and are stored in the manifest.
#[derive(Debug, Clone, PartialEq)]
pub struct CpuInfo {
    pub model_name: String,
    pub cpu_family: String,
    pub model: String,
    pub stepping: String,
    pub microcode: String,
    pub cache_size: String,
    pub cpuid_level: String,
}

impl CpuInfo {
    /// The seven identity fields as character sequences, in declaration order.
    pub open spec fn fields(&self) -> Seq<Seq<char>> {
        seq![
            self.model_name@,
            self.cpu_family@,
            self.model@,
            self.stepping@,
            self.microcode@,
            self.cache_size@,
            self.cpuid_level@,
        ]
    }

    /// Whether two identity records hold the same text in every field.
    pub fn same_as(&self, other: &CpuInfo) -> (b: bool)
        ensures
            b == (self.fields() == other.fields()),
    {
        let b = self.model_name == other.model_name && self.cpu_family == other.cpu_family
            && self.model == other.model && self.stepping == other.stepping && self.microcode
            == other.microcode && self.cache_size == other.cache_size && self.cpuid_level
            == other.cpuid_level;
        proof {
            if !b {
                if self.model_name@ != other.model_name@ {
                    assert(self.fields()[0] != other.fields()[0]);
                } else if self.cpu_family@ != other.cpu_family@ {
                    assert(self.fields()[1] != other.fields()[1]);
                } else if self.model@ != other.model@ {
                    assert(self.fields()[2] != other.fields()[2]);
                } else if self.stepping@ != other.stepping@ {
                    assert(self.fields()[3] != other.fields()[3]);
                } else if self.microcode@ != other.microcode@ {
                    assert(self.fields()[4] != other.fields()[4]);
                } else if self.cache_size@ != other.cache_size@ {
                    assert(self.fields()[5] != other.fields()[5]);
                } else {
                    assert(self.fields()[6] != other.fields()[6]);
                }
            } else {
                assert(self.fields() =~= other.fields());
            }
        }
        b
    }

    /// A field-by-field copy.
    pub fn duplicate(&self) -> (res: CpuInfo)
        ensures
            res.fields() == self.fields(),
    {
        CpuInfo {
            model_name: self.model_name.clone(),
            cpu_family: self.cpu_family.clone(),
            model: self.model.clone(),
            stepping: self.stepping.clone(),
            microcode: self.microcode.clone(),
            cache_size: self.cache_size.clone(),
            cpuid_level: self.cpuid_level.clone(),
        }
    }
}


/// The motherboard serial from the contents of the DMI `board_serial` file:
/// trimmed, and absent when empty or the firmware placeholder "Default string".
pub open spec fn board_serial_spec(content: Option<Seq<char>>) -> Option<Seq<char>> {
    match content {
        Some(c) => {
            let t = trim(c);
            if t.len() > 0 && t != "Default string"@ {
                Some(t)
            } else {
                None
            }
        },
        None => None,
    }
}

/// Derives the motherboard serial from the contents of
/// `/sys/class/dmi/id/board_serial` (`None` when the file could not be read).
pub fn get_motherboard_serial(board_serial_file: Option<&str>) -> (res: Option<String>)
    ensures
        opt_view(res) == board_serial_spec(
            match board_serial_file {
                Some(c) => Some(c@),
                None => None,
            },
        ),
{
    match board_serial_file {
        Some(content) => {
            let t = trim_chars(&chars_of(content));
            let placeholder = chars_of("Default string");
            if t.len() > 0 && !eq_chars(&t, &placeholder) {
                Some(string_from_chars(&t))
            } else {
                None
            }
        },
        None => None,
    }
}

/// A sysfs attribute value: the file contents trimmed, absent when empty.
pub open spec fn sysfs_value_spec(content: Option<Seq<char>>) -> Option<Seq<char>> {
    match content {
        Some(c) => if trim(c).len() > 0 {
            Some(trim(c))
        } else {
            None
        },
        None => None,
    }
}

/// Reads a sysfs attribute such as `/sys/class/drm/card0/device/vendor` from
/// its file contents (`None` when the file could not be read).
pub fn read_sysfs_hex(content: &Option<String>) -> (res: Option<String>)
    ensures
        opt_view(res) == sysfs_value_spec(opt_view(*content)),
{
    match content {
        Some(c) => {
            let t = trim_chars(&chars_of(c.as_str()));
            if t.len() > 0 {
                Some(string_from_chars(&t))
            } else {
                None
            }
        },
        None => None,
    }
}

/// The state of the `dmidecode -t memory` scan: manufacturer, locator and part
/// number of the current memory device, and the entries found so far.
pub type RamScan = (Seq<char>, Seq<char>, Seq<char>, Seq<Seq<char>>);

/// The state before the first line.
pub open spec fn ram_initial() -> RamScan {
    ("Unknown"@, "Unknown"@, Seq::<char>::empty(), Seq::<Seq<char>>::empty())
}

/// The value of a `Key:` line: the line with every `key` removed, trimmed.
pub open spec fn field_value(line: Seq<char>, key: Seq<char>) -> Seq<char> {
    trim(remove_all(line, key))
}

/// A serial number that identifies a memory module (not an empty slot or filler).
pub open spec fn real_ram_serial(serial: Seq<char>) -> bool {
    serial.len() > 0 && serial != "Not Specified"@ && serial != "Unknown"@
}

/// The entry recorded for one memory module.
pub open spec fn ram_entry(
    manufacturer: Seq<char>,
    part: Seq<char>,
    locator: Seq<char>,
    serial: Seq<char>,
) -> Seq<char> {
    manufacturer + " "@ + part + " "@ + locator + " (S/N: "@ + serial + ")"@
}

/// One line of `dmidecode` output applied to the scan state.
pub open spec fn ram_step(st: RamScan, line: Seq<char>) -> RamScan {
    let t = trim(line);
    if has_prefix(t, "Locator:"@) {
        (st.0, field_value(t, "Locator:"@), st.2, st.3)
    } else if has_prefix(t, "Manufacturer:"@) {
        (field_value(t, "Manufacturer:"@), st.1, st.2, st.3)
    } else if has_prefix(t, "Part Number:"@) {
        (st.0, st.1, field_value(t, "Part Number:"@), st.3)
    } else if has_prefix(t, "Serial Number:"@) {
        let serial = field_value(t, "Serial Number:"@);
        let out = if real_ram_serial(serial) {
            st.3.push(ram_entry(st.0, st.2, st.1, serial))
        } else {
            st.3
        };
        ("Unknown"@, "Unknown"@, Seq::<char>::empty(), out)
    } else {
        st
    }
}

/// The scan state after the given lines.
pub open spec fn ram_fold(lines: Seq<Seq<char>>) -> RamScan
    decreases lines.len(),
{
    if lines.len() == 0 {
        ram_initial()
    } else {
        ram_step(ram_fold(lines.drop_last()), lines.last())
    }
}

/// The memory module entries described by a `dmidecode -t memory` report.
pub open spec fn ram_serials_spec(report: Seq<char>) -> Seq<Seq<char>> {
    ram_fold(split_on(report, '\n')).3
}


/// Extracts one entry per physical memory module from a `dmidecode -t memory`
/// report: "<manufacturer> <part> <locator> (S/N: <serial>)" for each
/// `Serial Number:` line that names a real serial, taking manufacturer,
/// locator and part from the lines since the previous serial.
pub fn parse_ram_serials(report: &str) -> (res: Vec<String>)
    ensures
        str_views(res@) == ram_serials_spec(report@),
{
    let text = chars_of(report);
    let lines = split_chars(&text, '\n');
    let k_loc = chars_of("Locator:");
    let k_man = chars_of("Manufacturer:");
    let k_part = chars_of("Part Number:");
    let k_serial = chars_of("Serial Number:");
    let unknown = chars_of("Unknown");
    let not_specified = chars_of("Not Specified");
    let space = chars_of(" ");
    let sn_open = chars_of(" (S/N: ");
    let sn_close = chars_of(")");
    proof {
        reveal_strlit("Locator:");
        reveal_strlit("Manufacturer:");
        reveal_strlit("Part Number:");
        reveal_strlit("Serial Number:");
    }
    let mut manufacturer = chars_of("Unknown");
    let mut locator = chars_of("Unknown");
    let mut part: Vec<char> = Vec::new();
    let mut out: Vec<Vec<char>> = Vec::new();
    let n = lines.len();
    let ghost all = char_views(lines@);
    let mut i: usize = 0;
    assert(all.take(0) =~= Seq::<Seq<char>>::empty());
    assert(char_views(out@) =~= Seq::<Seq<char>>::empty());
    while i < n
        invariant
            n == lines.len(),
            all == char_views(lines@),
            i <= n,
            k_loc@ == "Locator:"@,
            k_man@ == "Manufacturer:"@,
            k_part@ == "Part Number:"@,
            k_serial@ == "Serial Number:"@,
            k_loc@.len() > 0,
            k_man@.len() > 0,
            k_part@.len() > 0,
            k_serial@.len() > 0,
            unknown@ == "Unknown"@,
            not_specified@ == "Not Specified"@,
            space@ == " "@,
            sn_open@ == " (S/N: "@,
            sn_close@ == ")"@,
            ram_fold(all.take(i as int)) == (manufacturer@, locator@, part@, char_views(out@)),
        decreases n - i,
    {
        let ghost prev = all.take(i as int);
        assert(all.take(i + 1).drop_last() =~= prev);
        assert(all.take(i + 1).last() == lines@[i as int]@);
        let t = trim_chars(&lines[i]);
        if starts_with(&t, &k_loc) {
            locator = trim_chars(&remove_all_chars(&t, &k_loc));
        } else if starts_with(&t, &k_man) {
            manufacturer = trim_chars(&remove_all_chars(&t, &k_man));
        } else if starts_with(&t, &k_part) {
            part = trim_chars(&remove_all_chars(&t, &k_part));
        } else if starts_with(&t, &k_serial) {
            let serial = trim_chars(&remove_all_chars(&t, &k_serial));
            if serial.len() > 0 && !eq_chars(&serial, &not_specified) && !eq_chars(
                &serial,
                &unknown,
            ) {
                let mut entry = concat(&manufacturer, &space);
                push_all(&mut entry, &part);
                push_all(&mut entry, &space);
                push_all(&mut entry, &locator);
                push_all(&mut entry, &sn_open);
                push_all(&mut entry, &serial);
                push_all(&mut entry, &sn_close);
                let ghost before = char_views(out@);
                let ghost ev = entry@;
                out.push(entry);
                assert(char_views(out@) =~= before.push(ev));
            }
            manufacturer = chars_of("Unknown");
            locator = chars_of("Unknown");
            part = Vec::new();
        }
        i = i + 1;
    }
    assert(all.take(n as int) =~= all);
    let res = strings_from(&out);
    res
}

/// The text `String::from_utf8_lossy` decodes from `bytes`.
pub uninterp spec fn lossy_utf8(bytes: Seq<u8>) -> Seq<char>;

/// Calls `String::from_utf8_lossy` (std), which decodes `bytes` as UTF-8 and
/// replaces each invalid sequence with U+FFFD. Stated: the result is the named
/// decoding of the bytes, and on valid UTF-8 it is the ordinary decoding.
/// Not stated: what the replacement of invalid sequences produces.
#[verifier::external_body]
fn decode_lossy(bytes: &[u8]) -> (res: String)
    ensures
        res@ == lossy_utf8(bytes@),
        valid_utf8(bytes@) ==> res@ == decode_utf8(bytes@),
{
    String::from_utf8_lossy(bytes).into_owned()
}

/// The memory module entries of the raw standard output of `dmidecode -t memory`.
pub fn get_ram_serials(dmidecode_stdout: &[u8]) -> (res: Vec<String>)
    ensures
        str_views(res@) == ram_serials_spec(lossy_utf8(dmidecode_stdout@)),
{
    let report = decode_lossy(dmidecode_stdout);
    parse_ram_serials(report.as_str())
}

/// A block device as `lsblk -J -d -o MODEL,SERIAL` lists it: its model and
/// serial, each `None` where the field is missing or not a string.
#[derive(Debug)]
pub struct BlockDevice {
    pub model: Option<String>,
    pub serial: Option<String>,
}

impl View for BlockDevice {
    type V = (Option<Seq<char>>, Option<Seq<char>>);

    open spec fn view(&self) -> (Option<Seq<char>>, Option<Seq<char>>) {
        (opt_view(self.model), opt_view(self.serial))
    }
}

/// The view of a block device: model and serial.
pub type BlockDeviceView = (Option<Seq<char>>, Option<Seq<char>>);

/// The model and serial of one `blockdevices` entry: its `model` and
/// `serial` members when they are strings.
pub open spec fn lsblk_device(d: JsonSpec) -> BlockDeviceView {
    (json_str(json_get(d, "model"@)), json_str(json_get(d, "serial"@)))
}

/// The devices `lsblk -J` output lists: the entries of the `blockdevices`
/// array of the document, or `None` when there is no such array.
pub open spec fn lsblk_devices_spec(doc: JsonSpec) -> Option<Seq<BlockDeviceView>> {
    match json_get(doc, "blockdevices"@) {
        Some(JsonSpec::Array(items)) => Some(items.map_values(|d: JsonSpec| lsblk_device(d))),
        _ => None,
    }
}

/// The block devices a `lsblk -J` document lists under `blockdevices`, or
/// `None` when it holds no such array.
pub fn lsblk_block_devices(doc: &JsonValue) -> (res: Option<Vec<BlockDevice>>)
    ensures
        match res {
            Some(v) => lsblk_devices_spec(json_view(*doc)) == Some(
                v@.map_values(|d: BlockDevice| d@),
            ),
            None => lsblk_devices_spec(json_view(*doc)) is None,
        },
{
    match get_member(doc, "blockdevices") {
        Some(JsonValue::Array(items)) => {
            let ghost js = match json_get(json_view(*doc), "blockdevices"@) {
                Some(JsonSpec::Array(x)) => x,
                _ => Seq::empty(),
            };
            let ghost want = js.map_values(|d: JsonSpec| lsblk_device(d));
            let n = items.len();
            let mut out: Vec<BlockDevice> = Vec::new();
            let mut i: usize = 0;
            while i < n
                invariant
                    n == items@.len(),
                    js.len() == n,
                    forall|q: int| 0 <= q < n ==> #[trigger] js[q] == json_view(items@[q]),
                    want == js.map_values(|d: JsonSpec| lsblk_device(d)),
                    i <= n,
                    out@.map_values(|d: BlockDevice| d@) == want.take(i as int),
                decreases n - i,
            {
                let dev = &items[i];
                let model = as_text(get_member(dev, "model"));
                let serial = as_text(get_member(dev, "serial"));
                let ghost before = out@.map_values(|d: BlockDevice| d@);
                let bd = BlockDevice { model, serial };
                assert(bd@ == lsblk_device(js[i as int]));
                out.push(bd);
                assert(out@.map_values(|d: BlockDevice| d@) =~= before.push(want[i as int]));
                assert(want.take(i + 1) =~= want.take(i as int).push(want[i as int]));
                i = i + 1;
            }
            assert(want.take(n as int) =~= want);
            Some(out)
        },
        _ => None,
    }
}

/// The entry for one block device: "<model> (S/N: <serial>)" with both
/// trimmed, a missing model read as "Unknown Drive"; none without a serial.
pub open spec fn drive_entry(d: (Option<Seq<char>>, Option<Seq<char>>)) -> Option<Seq<char>> {
    let serial = trim(
        match d.1 {
            Some(s) => s,
            None => Seq::<char>::empty(),
        },
    );
    let model = trim(
        match d.0 {
            Some(m) => m,
            None => "Unknown Drive"@,
        },
    );
    if serial.len() > 0 {
        Some(model + " (S/N: "@ + serial + ")"@)
    } else {
        None
    }
}

/// The entries of the devices that have a serial, in order.
pub open spec fn drive_serials_spec(devs: Seq<(Option<Seq<char>>, Option<Seq<char>>)>) -> Seq<
    Seq<char>,
>
    decreases devs.len(),
{
    if devs.len() == 0 {
        Seq::<Seq<char>>::empty()
    } else {
        let r = drive_serials_spec(devs.drop_last());
        match drive_entry(devs.last()) {
            Some(e) => r.push(e),
            None => r,
        }
    }
}

/// The chars of an optional string, or `default` when absent.
fn chars_or(o: &Option<String>, default: &Vec<char>) -> (res: Vec<char>)
    ensures
        res@ == match opt_view(*o) {
            Some(t) => t,
            None => default@,
        },
{
    match o {
        Some(s) => chars_of(s.as_str()),
        None => chars_of_vec(default),
    }
}

/// A copy of a character vector.
fn chars_of_vec(v: &Vec<char>) -> (res: Vec<char>)
    ensures
        res@ == v@,
{
    let mut res: Vec<char> = Vec::new();
    push_all(&mut res, v);
    assert(res@ =~= v@);
    res
}

/// The factory serials of the given block devices: one
/// "<model> (S/N: <serial>)" entry for each device with a non-blank serial.
pub fn drive_serials_from_devices(devices: &Vec<BlockDevice>) -> (res: Vec<String>)
    ensures
        str_views(res@) == drive_serials_spec(devices@.map_values(|d: BlockDevice| d@)),
{
    let ghost devs = devices@.map_values(|d: BlockDevice| d@);
    let empty: Vec<char> = Vec::new();
    let unknown = chars_of("Unknown Drive");
    let sn_open = chars_of(" (S/N: ");
    let sn_close = chars_of(")");
    let mut out: Vec<Vec<char>> = Vec::new();
    let n = devices.len();
    let mut i: usize = 0;
    assert(devs.take(0) =~= Seq::<(Option<Seq<char>>, Option<Seq<char>>)>::empty());
    assert(char_views(out@) =~= Seq::<Seq<char>>::empty());
    while i < n
        invariant
            n == devices.len(),
            devs == devices@.map_values(|d: BlockDevice| d@),
            i <= n,
            empty@ == Seq::<char>::empty(),
            unknown@ == "Unknown Drive"@,
            sn_open@ == " (S/N: "@,
            sn_close@ == ")"@,
            char_views(out@) == drive_serials_spec(devs.take(i as int)),
        decreases n - i,
    {
        assert(devs.take(i + 1).drop_last() =~= devs.take(i as int));
        assert(devs.take(i + 1).last() == devices@[i as int]@);
        let dev = &devices[i];
        let serial = trim_chars(&chars_or(&dev.serial, &empty));
        let model = trim_chars(&chars_or(&dev.model, &unknown));
        if serial.len() > 0 {
            let mut entry = concat(&model, &sn_open);
            push_all(&mut entry, &serial);
            push_all(&mut entry, &sn_close);
            let ghost before = char_views(out@);
            let ghost ev = entry@;
            out.push(entry);
            assert(char_views(out@) =~= before.push(ev));
        }
        i = i + 1;
    }
    assert(devs.take(n as int) =~= devs);
    strings_from(&out)
}

/// The drive serials a `lsblk -J` document describes (none when it is not
/// one): the entries of the devices that have a serial.
pub open spec fn drive_serials_of_json(doc: Option<JsonSpec>) -> Seq<Seq<char>> {
    match doc {
        Some(d) => match lsblk_devices_spec(d) {
            Some(devs) => drive_serials_spec(devs),
            None => Seq::<Seq<char>>::empty(),
        },
        None => Seq::<Seq<char>>::empty(),
    }
}

/// The drive serials listed in the raw standard output of
/// `lsblk -J -d -o MODEL,SERIAL`; none when it cannot be read.
pub fn get_drive_serials(lsblk_stdout: &[u8]) -> (res: Vec<String>)
    ensures
        str_views(res@) == drive_serials_of_json(json_of(lsblk_stdout@)),
{
    let empty = || -> (r: Vec<String>)
        ensures
            str_views(r@) == Seq::<Seq<char>>::empty(),
        {
            let r: Vec<String> = Vec::new();
            assert(str_views(r@) =~= Seq::<Seq<char>>::empty());
            r
        };
    match read_json(lsblk_stdout) {
        Some(doc) => match lsblk_block_devices(&doc) {
            Some(devices) => drive_serials_from_devices(&devices),
            None => empty(),
        },
        None => empty(),
    }
}

/// Every character is ASCII.
pub open spec fn is_ascii_text(s: Seq<char>) -> bool {
    forall|i: int| 0 <= i < s.len() ==> (#[trigger] s[i] as u32) < 128
}

/// ASCII upper-casing: `a`..=`z` become `A`..=`Z`, every other character stays.
pub open spec fn ascii_upper(s: Seq<char>) -> Seq<char> {
    Seq::new(
        s.len(),
        |i: int|
            if 'a' <= s[i] && s[i] <= 'z' {
                ((s[i] as u32) - 32) as char
            } else {
                s[i]
            },
    )
}

/// The text `str::to_uppercase` produces from `s`.
pub uninterp spec fn unicode_uppercase(s: Seq<char>) -> Seq<char>;

/// Calls `str::to_uppercase` (std), which maps every character to its Unicode
/// uppercase form. Stated: the result is the named mapping of the text, and on
/// ASCII text it is ASCII upper-casing. Not stated: the mapping of non-ASCII
/// characters, which the Unicode case tables define.
#[verifier::external_body]
fn to_uppercase(s: &str) -> (res: String)
    ensures
        res@ == unicode_uppercase(s@),
        is_ascii_text(s@) ==> res@ == ascii_upper(s@),
{
    s.to_uppercase()
}

/// The upper-cased form of a text as `str::to_uppercase` gives it: ASCII
/// upper-casing for ASCII text (such as every MAC address), the named Unicode
/// mapping otherwise.
pub open spec fn uppercase_text(t: Seq<char>) -> Seq<char> {
    if is_ascii_text(t) {
        ascii_upper(t)
    } else {
        unicode_uppercase(t)
    }
}

/// A network interface under `/sys/class/net/`: its name, whether it has a
/// `device` link (physical hardware), and the contents of its `address` file
/// (`None` when it could not be read).
#[derive(Debug)]
pub struct NetInterface {
    pub name: String,
    pub has_device: bool,
    pub address: Option<String>,
}

impl View for NetInterface {
    type V = (Seq<char>, bool, Option<Seq<char>>);

    open spec fn view(&self) -> (Seq<char>, bool, Option<Seq<char>>) {
        (self.name@, self.has_device, opt_view(self.address))
    }
}

/// The entry for one interface: "<name> [<ADDRESS>]" with the address trimmed
/// and upper-cased (ASCII upper-casing for an ASCII address); none for virtual interfaces, unreadable or empty
/// addresses, and the all-zero address.
pub open spec fn mac_entry(iface: (Seq<char>, bool, Option<Seq<char>>)) -> Option<Seq<char>> {
    if !iface.1 {
        None
    } else {
        match iface.2 {
            Some(a) => {
                let t = trim(a);
                if t.len() > 0 && t != "00:00:00:00:00:00"@ {
                    Some(iface.0 + " ["@ + uppercase_text(t) + "]"@)
                } else {
                    None
                }
            },
            None => None,
        }
    }
}

/// The entries of the physical interfaces with a real address, in order.
pub open spec fn mac_addresses_spec(ifaces: Seq<(Seq<char>, bool, Option<Seq<char>>)>) -> Seq<
    Seq<char>,
>
    decreases ifaces.len(),
{
    if ifaces.len() == 0 {
        Seq::<Seq<char>>::empty()
    } else {
        let r = mac_addresses_spec(ifaces.drop_last());
        match mac_entry(ifaces.last()) {
            Some(e) => r.push(e),
            None => r,
        }
    }
}

/// The permanent MAC addresses of the physical network interfaces among the
/// given ones, in the order given.
pub fn get_mac_addresses(interfaces: &Vec<NetInterface>) -> (res: Vec<String>)
    ensures
        str_views(res@) == mac_addresses_spec(interfaces@.map_values(|x: NetInterface| x@)),
{
    let ghost ifs = interfaces@.map_values(|x: NetInterface| x@);
    let zero = chars_of("00:00:00:00:00:00");
    let open = chars_of(" [");
    let close = chars_of("]");
    let mut out: Vec<Vec<char>> = Vec::new();
    let n = interfaces.len();
    let mut i: usize = 0;
    assert(ifs.take(0) =~= Seq::<(Seq<char>, bool, Option<Seq<char>>)>::empty());
    assert(char_views(out@) =~= Seq::<Seq<char>>::empty());
    while i < n
        invariant
            n == interfaces.len(),
            ifs == interfaces@.map_values(|x: NetInterface| x@),
            i <= n,
            zero@ == "00:00:00:00:00:00"@,
            open@ == " ["@,
            close@ == "]"@,
            char_views(out@) == mac_addresses_spec(ifs.take(i as int)),
        decreases n - i,
    {
        assert(ifs.take(i + 1).drop_last() =~= ifs.take(i as int));
        assert(ifs.take(i + 1).last() == interfaces@[i as int]@);
        let iface = &interfaces[i];
        if iface.has_device {
            match &iface.address {
                Some(a) => {
                    let t = trim_chars(&chars_of(a.as_str()));
                    if t.len() > 0 && !eq_chars(&t, &zero) {
                        let ts = string_from_chars(&t);
                        let upper = to_uppercase(ts.as_str());
                        let mut entry = concat(&chars_of(iface.name.as_str()), &open);
                        push_all(&mut entry, &chars_of(upper.as_str()));
                        push_all(&mut entry, &close);
                        let ghost before = char_views(out@);
                        let ghost ev = entry@;
                        out.push(entry);
                        assert(char_views(out@) =~= before.push(ev));
                    }
                },
                None => {},
            }
        }
        i = i + 1;
    }
    assert(ifs.take(n as int) =~= ifs);
    strings_from(&out)
}

/// A DRM device under `/sys/class/drm/`: its name, whether it has a `device`
/// directory, and the contents of the `vendor`, `device`, `subsystem_vendor`
/// and `subsystem_device` files of that directory (`None` when unreadable).
#[derive(Debug)]
pub struct DrmCard {
    pub name: String,
    pub has_device: bool,
    pub vendor: Option<String>,
    pub device: Option<String>,
    pub subsystem_vendor: Option<String>,
    pub subsystem_device: Option<String>,
}

/// The view of a DRM device: name, `device` directory present, and the four
/// PCI identity files.
pub type DrmCardView = (
    Seq<char>,
    bool,
    Option<Seq<char>>,
    Option<Seq<char>>,
    Option<Seq<char>>,
    Option<Seq<char>>,
);

impl View for DrmCard {
    type V = DrmCardView;

    open spec fn view(&self) -> DrmCardView {
        (
            self.name@,
            self.has_device,
            opt_view(self.vendor),
            opt_view(self.device),
            opt_view(self.subsystem_vendor),
            opt_view(self.subsystem_device),
        )
    }
}

/// A top-level card (`card0`, `card1`, ...), not a connector such as `card0-DP-1`.
pub open spec fn is_top_level_card(name: Seq<char>) -> bool {
    has_prefix(name, "card"@) && !name.contains('-')
}

/// The identifier of one DRM card: "PCI-<vendor>-<device>", followed by
/// "-<subsystem vendor>-<subsystem device>" when both are known; none for
/// connectors, cards without a device directory, and unknown vendor or device.
pub open spec fn drm_entry(c: DrmCardView) -> Option<Seq<char>> {
    if !is_top_level_card(c.0) || !c.1 {
        None
    } else {
        match (sysfs_value_spec(c.2), sysfs_value_spec(c.3)) {
            (Some(v), Some(d)) => Some(
                "PCI-"@ + v + "-"@ + d + match (sysfs_value_spec(c.4), sysfs_value_spec(c.5)) {
                    (Some(sv), Some(sd)) => "-"@ + sv + "-"@ + sd,
                    _ => Seq::<char>::empty(),
                },
            ),
            _ => None,
        }
    }
}

/// The identifiers of the given DRM cards, in order.
pub open spec fn drm_ids_spec(cards: Seq<DrmCardView>) -> Seq<Seq<char>>
    decreases cards.len(),
{
    if cards.len() == 0 {
        Seq::<Seq<char>>::empty()
    } else {
        let r = drm_ids_spec(cards.drop_last());
        match drm_entry(cards.last()) {
            Some(e) => r.push(e),
            None => r,
        }
    }
}

/// Some identifier already found contains `t` or is contained in it.
pub open spec fn overlaps_any(ids: Seq<Seq<char>>, t: Seq<char>) -> bool {
    exists|k: int| 0 <= k < ids.len() && (has_substring(t, ids[k]) || has_substring(ids[k], t))
}

/// One line of `nvidia-smi -L` output: its trimmed text is added unless it is
/// blank or overlaps an identifier already found.
pub open spec fn nvidia_step(ids: Seq<Seq<char>>, line: Seq<char>) -> Seq<Seq<char>> {
    let t = trim(line);
    if t.len() > 0 && !overlaps_any(ids, t) {
        ids.push(t)
    } else {
        ids
    }
}

/// The identifiers after the given `nvidia-smi` lines.
pub open spec fn nvidia_fold(ids: Seq<Seq<char>>, lines: Seq<Seq<char>>) -> Seq<Seq<char>>
    decreases lines.len(),
{
    if lines.len() == 0 {
        ids
    } else {
        nvidia_step(nvidia_fold(ids, lines.drop_last()), lines.last())
    }
}

/// One line of `lspci -nn` output: a VGA or 3D controller line adds
/// "LSPCI-<slot>", the slot being its first whitespace-separated token.
pub open spec fn lspci_step(ids: Seq<Seq<char>>, line: Seq<char>) -> Seq<Seq<char>> {
    if has_substring(line, "VGA"@) || has_substring(line, "3D controller"@) {
        match first_token(line) {
            Some(slot) => ids.push("LSPCI-"@ + slot),
            None => ids,
        }
    } else {
        ids
    }
}

/// The identifiers found in the given `lspci` lines.
pub open spec fn lspci_fold(lines: Seq<Seq<char>>) -> Seq<Seq<char>>
    decreases lines.len(),
{
    if lines.len() == 0 {
        Seq::<Seq<char>>::empty()
    } else {
        lspci_step(lspci_fold(lines.drop_last()), lines.last())
    }
}

/// The identifiers of the GPUs among the given DRM cards.
pub fn drm_gpu_ids(cards: &Vec<DrmCard>) -> (res: Vec<Vec<char>>)
    ensures
        char_views(res@) == drm_ids_spec(cards@.map_values(|c: DrmCard| c@)),
{
    let ghost cs = cards@.map_values(|c: DrmCard| c@);
    let card = chars_of("card");
    let pci = chars_of("PCI-");
    let dash = chars_of("-");
    let mut out: Vec<Vec<char>> = Vec::new();
    let n = cards.len();
    let mut i: usize = 0;
    assert(cs.take(0) =~= Seq::<DrmCardView>::empty());
    assert(char_views(out@) =~= Seq::<Seq<char>>::empty());
    while i < n
        invariant
            n == cards.len(),
            cs == cards@.map_values(|c: DrmCard| c@),
            i <= n,
            card@ == "card"@,
            pci@ == "PCI-"@,
            dash@ == "-"@,
            char_views(out@) == drm_ids_spec(cs.take(i as int)),
        decreases n - i,
    {
        assert(cs.take(i + 1).drop_last() =~= cs.take(i as int));
        assert(cs.take(i + 1).last() == cards@[i as int]@);
        let c = &cards[i];
        let name = chars_of(c.name.as_str());
        if starts_with(&name, &card) && !contains_char(&name, '-') && c.has_device {
            let vendor = read_sysfs_hex(&c.vendor);
            let device = read_sysfs_hex(&c.device);
            let sub_vendor = read_sysfs_hex(&c.subsystem_vendor);
            let sub_device = read_sysfs_hex(&c.subsystem_device);
            match (&vendor, &device) {
                (Some(v), Some(d)) => {
                    let mut id = concat(&pci, &chars_of(v.as_str()));
                    push_all(&mut id, &dash);
                    push_all(&mut id, &chars_of(d.as_str()));
                    let mut tail: Vec<char> = Vec::new();
                    match (&sub_vendor, &sub_device) {
                        (Some(sv), Some(sd)) => {
                            push_all(&mut tail, &dash);
                            push_all(&mut tail, &chars_of(sv.as_str()));
                            push_all(&mut tail, &dash);
                            push_all(&mut tail, &chars_of(sd.as_str()));
                        },
                        _ => {},
                    }
                    push_all(&mut id, &tail);
                    let ghost before = char_views(out@);
                    let ghost ev = id@;
                    out.push(id);
                    assert(char_views(out@) =~= before.push(ev));
                },
                _ => {},
            }
        }
        i = i + 1;
    }
    assert(cs.take(n as int) =~= cs);
    out
}

/// Whether `t` overlaps (contains or is contained in) one of `ids`.
fn overlaps_any_exec(ids: &Vec<Vec<char>>, t: &Vec<char>) -> (b: bool)
    ensures
        b == overlaps_any(char_views(ids@), t@),
{
    let ghost v = char_views(ids@);
    let n = ids.len();
    let mut k: usize = 0;
    while k < n
        invariant
            n == ids.len(),
            v == char_views(ids@),
            k <= n,
            forall|q: int|
                0 <= q < k ==> !(has_substring(t@, #[trigger] v[q]) || has_substring(v[q], t@)),
        decreases n - k,
    {
        if contains_chars(t, &ids[k]) || contains_chars(&ids[k], t) {
            assert(v[k as int] == ids@[k as int]@);
            return true;
        }
        k = k + 1;
    }
    false
}

/// Adds the GPU descriptions listed by `nvidia-smi -L` (one per non-blank
/// line, trimmed) to `ids`, skipping any that overlaps an identifier already
/// present.
pub fn merge_nvidia_gpus(ids: &mut Vec<Vec<char>>, listing: &str)
    ensures
        char_views(final(ids)@) == nvidia_fold(
            char_views(old(ids)@),
            split_on(listing@, '\n'),
        ),
{
    let ghost start = char_views(ids@);
    let lines = split_chars(&chars_of(listing), '\n');
    let ghost all = char_views(lines@);
    let n = lines.len();
    let mut i: usize = 0;
    assert(all.take(0) =~= Seq::<Seq<char>>::empty());
    while i < n
        invariant
            n == lines.len(),
            all == char_views(lines@),
            all == split_on(listing@, '\n'),
            i <= n,
            char_views(ids@) == nvidia_fold(start, all.take(i as int)),
        decreases n - i,
    {
        assert(all.take(i + 1).drop_last() =~= all.take(i as int));
        assert(all.take(i + 1).last() == lines@[i as int]@);
        let t = trim_chars(&lines[i]);
        if t.len() > 0 && !overlaps_any_exec(ids, &t) {
            let ghost before = char_views(ids@);
            let ghost tv = t@;
            ids.push(t);
            assert(char_views(ids@) =~= before.push(tv));
        }
        i = i + 1;
    }
    assert(all.take(n as int) =~= all);
}

/// The GPU slots listed by `lspci -nn`: "LSPCI-<slot>" for each VGA or 3D
/// controller line.
pub fn parse_lspci_gpus(listing: &str) -> (res: Vec<String>)
    ensures
        str_views(res@) == lspci_fold(split_on(listing@, '\n')),
{
    let lines = split_chars(&chars_of(listing), '\n');
    let ghost all = char_views(lines@);
    let vga = chars_of("VGA");
    let three_d = chars_of("3D controller");
    let prefix = chars_of("LSPCI-");
    let mut out: Vec<Vec<char>> = Vec::new();
    let n = lines.len();
    let mut i: usize = 0;
    assert(all.take(0) =~= Seq::<Seq<char>>::empty());
    assert(char_views(out@) =~= Seq::<Seq<char>>::empty());
    while i < n
        invariant
            n == lines.len(),
            all == char_views(lines@),
            i <= n,
            vga@ == "VGA"@,
            three_d@ == "3D controller"@,
            prefix@ == "LSPCI-"@,
            char_views(out@) == lspci_fold(all.take(i as int)),
        decreases n - i,
    {
        assert(all.take(i + 1).drop_last() =~= all.take(i as int));
        assert(all.take(i + 1).last() == lines@[i as int]@);
        let line = &lines[i];
        if contains_chars(line, &vga) || contains_chars(line, &three_d) {
            match first_token_chars(line) {
                Some(slot) => {
                    let entry = concat(&prefix, &slot);
                    let ghost before = char_views(out@);
                    let ghost ev = entry@;
                    out.push(entry);
                    assert(char_views(out@) =~= before.push(ev));
                },
                None => {},
            }
        }
        i = i + 1;
    }
    assert(all.take(n as int) =~= all);
    strings_from(&out)
}

/// The identifiers the sysfs DRM scan and `nvidia-smi` give: the DRM card
/// identifiers, then the `nvidia-smi -L` descriptions that overlap none found
/// before (when `nvidia-smi` ran successfully).
pub open spec fn primary_gpu_ids_spec(cards: Seq<DrmCardView>, nvidia_stdout: Option<Seq<u8>>) -> Seq<
    Seq<char>,
> {
    match nvidia_stdout {
        Some(b) => nvidia_fold(drm_ids_spec(cards), split_on(lossy_utf8(b), '\n')),
        None => drm_ids_spec(cards),
    }
}

/// Collects GPU identifiers from the sysfs DRM cards (any vendor) and from
/// the raw standard output of a successful `nvidia-smi -L` run.
pub fn sysfs_and_nvidia_gpu_ids(cards: &Vec<DrmCard>, nvidia_smi_stdout: Option<&[u8]>) -> (res:
    Vec<String>)
    ensures
        str_views(res@) == primary_gpu_ids_spec(
            cards@.map_values(|c: DrmCard| c@),
            match nvidia_smi_stdout {
                Some(b) => Some(b@),
                None => None,
            },
        ),
{
    let mut ids = drm_gpu_ids(cards);
    match nvidia_smi_stdout {
        Some(bytes) => {
            let listing = decode_lossy(bytes);
            merge_nvidia_gpus(&mut ids, listing.as_str());
        },
        None => {},
    }
    strings_from(&ids)
}

/// The final GPU identifiers: those already found, or, when none were found,
/// the `lspci` fallback read from the raw standard output of `lspci -nn`
/// (none when it did not run).
pub open spec fn gpu_uuids_spec(found: Seq<Seq<char>>, lspci_stdout: Option<Seq<u8>>) -> Seq<
    Seq<char>,
> {
    if found.len() > 0 {
        found
    } else {
        match lspci_stdout {
            Some(b) => lspci_fold(split_on(lossy_utf8(b), '\n')),
            None => Seq::<Seq<char>>::empty(),
        }
    }
}

/// Completes the vendor-agnostic GPU identification: keeps the identifiers
/// found by sysfs and `nvidia-smi`, and falls back on `lspci` only when there
/// are none.
pub fn get_gpu_uuids(found: Vec<String>, lspci_stdout: Option<&[u8]>) -> (res: Vec<String>)
    ensures
        str_views(res@) == gpu_uuids_spec(
            str_views(found@),
            match lspci_stdout {
                Some(b) => Some(b@),
                None => None,
            },
        ),
{
    if found.len() > 0 {
        return found;
    }
    match lspci_stdout {
        Some(bytes) => {
            let listing = decode_lossy(bytes);
            parse_lspci_gpus(listing.as_str())
        },
        None => {
            let res: Vec<String> = Vec::new();
            assert(str_views(res@) =~= Seq::<Seq<char>>::empty());
            res
        },
    }
}

/// The first processor block of `/proc/cpuinfo`: the text before the first
/// blank line (`str::split("\n\n").next()`).
pub open spec fn first_block(text: Seq<char>) -> Seq<char> {
    match find_from(text, "\n\n"@, 0) {
        Some(k) => text.subrange(0, k),
        None => text,
    }
}

/// The field a `/proc/cpuinfo` key sets, as an index into `CpuInfo::fields`;
/// -1 for keys that are not kept.
pub open spec fn cpu_key_index(key: Seq<char>) -> int {
    if key == "model name"@ {
        0
    } else if key == "cpu family"@ {
        1
    } else if key == "model"@ {
        2
    } else if key == "stepping"@ {
        3
    } else if key == "microcode"@ {
        4
    } else if key == "cache size"@ {
        5
    } else if key == "cpuid level"@ {
        6
    } else {
        -1
    }
}

/// One `key : value` line applied to the fields: a kept key sets its field to
/// the trimmed value; other lines change nothing.
pub open spec fn cpu_info_step(fields: Seq<Seq<char>>, line: Seq<char>) -> Seq<Seq<char>> {
    match split_once(line, ':') {
        Some(kv) => {
            let idx = cpu_key_index(trim(kv.0));
            if idx >= 0 {
                fields.update(idx, trim(kv.1))
            } else {
                fields
            }
        },
        None => fields,
    }
}

/// Seven empty fields.
pub open spec fn empty_cpu_fields() -> Seq<Seq<char>> {
    Seq::new(7, |i: int| Seq::<char>::empty())
}

/// The fields after the given lines.
pub open spec fn cpu_info_fold(lines: Seq<Seq<char>>) -> Seq<Seq<char>>
    decreases lines.len(),
{
    if lines.len() == 0 {
        empty_cpu_fields()
    } else {
        cpu_info_step(cpu_info_fold(lines.drop_last()), lines.last())
    }
}

/// The identity fields `/proc/cpuinfo` text gives (all empty when it could
/// not be read).
pub open spec fn cpu_info_spec(content: Option<Seq<char>>) -> Seq<Seq<char>> {
    match content {
        Some(text) => cpu_info_fold(split_on(first_block(text), '\n')),
        None => empty_cpu_fields(),
    }
}


/// The index of a kept key, or -1.
fn cpu_key_index_exec(key: &Vec<char>) -> (idx: i64)
    ensures
        idx == cpu_key_index(key@),
{
    if eq_chars(key, &chars_of("model name")) {
        0
    } else if eq_chars(key, &chars_of("cpu family")) {
        1
    } else if eq_chars(key, &chars_of("model")) {
        2
    } else if eq_chars(key, &chars_of("stepping")) {
        3
    } else if eq_chars(key, &chars_of("microcode")) {
        4
    } else if eq_chars(key, &chars_of("cache size")) {
        5
    } else if eq_chars(key, &chars_of("cpuid level")) {
        6
    } else {
        -1
    }
}

/// The text before the first blank line.
fn first_block_chars(text: &Vec<char>) -> (res: Vec<char>)
    ensures
        res@ == first_block(text@),
{
    let sep = chars_of("\n\n");
    proof {
        reveal_strlit("\n\n");
    }
    let n = text.len();
    if n < 2 {
        proof {
            assert(find_from(text@, sep@, 0) is None);
        }
        return slice_chars(text, 0, n);
    }
    let last = n - 2;
    let mut i: usize = 0;
    loop
        invariant
            n == text.len(),
            n >= 2,
            last == n - 2,
            sep@ == "\n\n"@,
            sep@.len() == 2,
            i <= last,
            find_from(text@, sep@, 0) == find_from(text@, sep@, i as int),
        decreases last - i,
    {
        if matches_at(text, &sep, i) {
            return slice_chars(text, 0, i);
        }
        if i == last {
            proof {
                assert(find_from(text@, sep@, i + 1) is None);
            }
            return slice_chars(text, 0, n);
        }
        i = i + 1;
    }
}

/// Reads the stable CPU identity fields from the contents of `/proc/cpuinfo`
/// (first logical core block); all fields are empty when the file could not
/// be read.
pub fn get_cpu_info(proc_cpuinfo: Option<&str>) -> (info: CpuInfo)
    ensures
        info.fields() == cpu_info_spec(
            match proc_cpuinfo {
                Some(c) => Some(c@),
                None => None,
            },
        ),
{
    let mut fields: Vec<Vec<char>> = Vec::new();
    let mut k: usize = 0;
    while k < 7
        invariant
            k <= 7,
            char_views(fields@) == Seq::new(k as nat, |i: int| Seq::<char>::empty()),
        decreases 7 - k,
    {
        let ghost before = char_views(fields@);
        let fresh: Vec<char> = Vec::new();
        fields.push(fresh);
        assert(char_views(fields@) =~= before.push(Seq::<char>::empty()));
        assert(before.push(Seq::<char>::empty()) =~= Seq::new(
            (k + 1) as nat,
            |i: int| Seq::<char>::empty(),
        ));
        k = k + 1;
    }
    assert(char_views(fields@) =~= empty_cpu_fields());
    match proc_cpuinfo {
        Some(content) => {
            let block = first_block_chars(&chars_of(content));
            let lines = split_chars(&block, '\n');
            let ghost all = char_views(lines@);
            let n = lines.len();
            let mut i: usize = 0;
            assert(all.take(0) =~= Seq::<Seq<char>>::empty());
            while i < n
                invariant
                    n == lines.len(),
                    all == char_views(lines@),
                    i <= n,
                    fields@.len() == 7,
                    char_views(fields@) == cpu_info_fold(all.take(i as int)),
                decreases n - i,
            {
                assert(all.take(i + 1).drop_last() =~= all.take(i as int));
                assert(all.take(i + 1).last() == lines@[i as int]@);
                match split_once_chars(&lines[i], ':') {
                    Some((key, value)) => {
                        let idx = cpu_key_index_exec(&trim_chars(&key));
                        if idx >= 0 {
                            let v = trim_chars(&value);
                            let ghost before = char_views(fields@);
                            let ghost vv = v@;
                            fields.set(idx as usize, v);
                            assert(char_views(fields@) =~= before.update(idx as int, vv));
                        }
                    },
                    None => {},
                }
                i = i + 1;
            }
            assert(all.take(n as int) =~= all);
        },
        None => {},
    }
    let ghost fv = char_views(fields@);
    let info = CpuInfo {
        model_name: string_from_chars(&fields[0]),
        cpu_family: string_from_chars(&fields[1]),
        model: string_from_chars(&fields[2]),
        stepping: string_from_chars(&fields[3]),
        microcode: string_from_chars(&fields[4]),
        cache_size: string_from_chars(&fields[5]),
        cpuid_level: string_from_chars(&fields[6]),
    };
    assert(info.fields() =~= fv);
    info
}

} // verus!
