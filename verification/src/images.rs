//! VM images: the cloud image catalog, request shapes, and disk size text.
use vstd::prelude::*;

use crate::text::{chars_of, owned, string_of_range, trim, trim_bounds, upper, upper_exec};
use vstd::string::*;

verus! {

/// Job state of an image download.
#[derive(Debug, Clone, Copy, PartialEq, Eq, Structural)]
pub enum BuildState {
    Pending,
    Building,
    Completed,
    Failed,
}

#[derive(Debug, Clone)]
pub struct CloudImage {
    pub name: String,
    pub distro: String,
    pub version: String,
    pub url: String,
    pub format: String,
    pub arch: String,
}

fn image(name: &str, distro: &str, version: &str, url: &str, arch: &str) -> (r: CloudImage)
    ensures
        r.name@ == name@,
        r.distro@ == distro@,
        r.version@ == version@,
        r.url@ == url@,
        r.format@ == "qcow2"@,
        r.arch@ == arch@,
{
    CloudImage {
        name: owned(name),
        distro: owned(distro),
        version: owned(version),
        url: owned(url),
        format: owned("qcow2"),
        arch: owned(arch),
    }
}

/// Well-known cloud images, all qcow2.
pub fn cloud_image_catalog() -> (r: Vec<CloudImage>)
    ensures
        r@.len() == 6,
        r@[0].name@ == "ubuntu-24.04"@ && r@[0].url@
            == "https://cloud-images.ubuntu.com/noble/current/noble-server-cloudimg-amd64.img"@,
        r@[1].name@ == "ubuntu-22.04"@ && r@[1].url@
            == "https://cloud-images.ubuntu.com/jammy/current/jammy-server-cloudimg-amd64.img"@,
        r@[2].name@ == "fedora-41"@ && r@[2].url@
            == "https://download.fedoraproject.org/pub/fedora/linux/releases/41/Cloud/x86_64/images/Fedora-Cloud-Base-Generic-41-1.4.x86_64.qcow2"@,
        r@[3].name@ == "debian-12"@ && r@[3].url@
            == "https://cloud.debian.org/images/cloud/bookworm/latest/debian-12-generic-amd64.qcow2"@,
        r@[4].name@ == "alma-9"@ && r@[4].url@
            == "https://repo.almalinux.org/almalinux/9/cloud/x86_64/images/AlmaLinux-9-GenericCloud-latest.x86_64.qcow2"@,
        r@[5].name@ == "flatcar-stable"@ && r@[5].url@
            == "https://stable.release.flatcar-linux.net/amd64-usr/current/flatcar_production_kubevirt_image.qcow2"@,
        forall|i: int| 0 <= i < 6 ==> (#[trigger] r@[i]).format@ == "qcow2"@,
{
    let mut v: Vec<CloudImage> = Vec::new();
    v.push(image("ubuntu-24.04", "ubuntu", "24.04", "https://cloud-images.ubuntu.com/noble/current/noble-server-cloudimg-amd64.img", "amd64"));
    v.push(image("ubuntu-22.04", "ubuntu", "22.04", "https://cloud-images.ubuntu.com/jammy/current/jammy-server-cloudimg-amd64.img", "amd64"));
    v.push(image("fedora-41", "fedora", "41", "https://download.fedoraproject.org/pub/fedora/linux/releases/41/Cloud/x86_64/images/Fedora-Cloud-Base-Generic-41-1.4.x86_64.qcow2", "x86_64"));
    v.push(image("debian-12", "debian", "12", "https://cloud.debian.org/images/cloud/bookworm/latest/debian-12-generic-amd64.qcow2", "amd64"));
    v.push(image("alma-9", "almalinux", "9", "https://repo.almalinux.org/almalinux/9/cloud/x86_64/images/AlmaLinux-9-GenericCloud-latest.x86_64.qcow2", "x86_64"));
    v.push(image("flatcar-stable", "flatcar", "stable", "https://stable.release.flatcar-linux.net/amd64-usr/current/flatcar_production_kubevirt_image.qcow2", "amd64"));
    v
}

#[derive(Debug, Clone)]
pub struct DownloadCloudImageRequest {
    pub name: String,
    /// Overrides the catalog URL.
    pub url: Option<String>,
}

#[derive(Debug, Clone)]
pub struct UploadIsoRequest {
    pub name: String,
    pub url: String,
}

#[derive(Debug, Clone)]
pub struct ResizeDiskRequest {
    /// New size, such as `50G`.
    pub size: String,
    /// Resize while the VM runs.
    pub online: bool,
}

#[derive(Debug, Clone)]
pub struct ImportVMRequest {
    pub source_path: String,
    pub name: String,
    pub target_format: String,
    pub cpus: u32,
    /// Memory in MB.
    pub memory: u64,
}

#[derive(Debug, Clone)]
pub struct ImportResult {
    pub vm_name: String,
    pub image_path: String,
    pub source_format: String,
    pub target_format: String,
    pub size_bytes: u64,
}

pub fn default_qcow2() -> (r: String)
    ensures
        r@ == "qcow2"@,
{
    owned("qcow2")
}

pub fn default_cpus() -> (r: u32)
    ensures
        r == 2,
{
    2
}

pub fn default_memory() -> (r: u64)
    ensures
        r == 2048,
{
    2048
}

/// How reading an unsigned integer ends.
pub enum IntParse {
    Value(int),
    Empty,
    InvalidDigit,
    Overflow,
}

/// Reading the digits of `s` after `acc`, left to right, stopping at the
/// first bad character or the first overflow of a `u64`.
pub open spec fn read_digits(s: Seq<char>, acc: int) -> IntParse
    decreases s.len(),
{
    if s.len() == 0 {
        IntParse::Value(acc)
    } else if !('0' <= s[0] && s[0] <= '9') {
        IntParse::InvalidDigit
    } else {
        let next = acc * 10 + (s[0] as int - '0' as int);
        if next > u64::MAX {
            IntParse::Overflow
        } else {
            read_digits(s.drop_first(), next)
        }
    }
}

/// `u64::from_str`: an optional `+`, then decimal digits.
pub open spec fn parse_int(s: Seq<char>) -> IntParse {
    if s.len() == 0 {
        IntParse::Empty
    } else if s[0] == '+' {
        if s.len() == 1 {
            IntParse::InvalidDigit
        } else {
            read_digits(s.drop_first(), 0)
        }
    } else {
        read_digits(s, 0)
    }
}

/// The message `ParseIntError` displays for an outcome.
pub open spec fn int_error_text(p: IntParse) -> Seq<char> {
    match p {
        IntParse::Empty => "cannot parse integer from empty string"@,
        IntParse::Overflow => "number too large to fit in target type"@,
        _ => "invalid digit found in string"@,
    }
}

fn parse_int_range(v: &Vec<char>, from: usize, to: usize) -> (r: Result<u64, &'static str>)
    requires
        from <= to <= v@.len(),
    ensures
        match parse_int(v@.subrange(from as int, to as int)) {
            IntParse::Value(x) => r == Ok::<u64, &'static str>(x as u64) && 0 <= x <= u64::MAX,
            p => r matches Err(e) && e@ == int_error_text(p),
        },
{
    let ghost s = v@.subrange(from as int, to as int);
    if from == to {
        return Err("cannot parse integer from empty string");
    }
    let mut a = from;
    if v[from] == '+' {
        if to - from == 1 {
            return Err("invalid digit found in string");
        }
        a = from + 1;
        assert(s.drop_first() =~= v@.subrange(a as int, to as int));
    } else {
        assert(s =~= v@.subrange(a as int, to as int));
    }
    let mut acc: u64 = 0;
    let mut i = a;
    while i < to
        invariant
            a <= i <= to <= v@.len(),
            parse_int(s) == read_digits(v@.subrange(a as int, to as int), 0),
            read_digits(v@.subrange(a as int, to as int), 0) == read_digits(v@.subrange(i as int, to as int), acc as int),
            s == v@.subrange(from as int, to as int),
        decreases to - i,
    {
        let ghost rest = v@.subrange(i as int, to as int);
        assert(rest.drop_first() =~= v@.subrange(i + 1, to as int));
        let c = v[i];
        if !('0' <= c && c <= '9') {
            return Err("invalid digit found in string");
        }
        let d = (c as u32 - '0' as u32) as u64;
        match acc.checked_mul(10) {
            None => {
                return Err("number too large to fit in target type");
            },
            Some(m) => match m.checked_add(d) {
                None => {
                    return Err("number too large to fit in target type");
                },
                Some(n) => {
                    acc = n;
                },
            },
        }
        i = i + 1;
    }
    Ok(acc)
}

/// The multiplier of a size suffix (compared without case), or none.
pub open spec fn suffix_factor(c: char) -> int {
    if upper(c) == 'T' {
        0x100_0000_0000int
    } else if upper(c) == 'G' {
        0x4000_0000int
    } else if upper(c) == 'M' {
        0x10_0000int
    } else if upper(c) == 'K' {
        1024int
    } else {
        0int
    }
}

/// The number part and factor of a trimmed size text.
pub open spec fn size_parts(s: Seq<char>) -> (IntParse, int) {
    if s.len() > 0 && suffix_factor(s.last()) > 0 {
        (parse_int(trim(s.drop_last())), suffix_factor(s.last()))
    } else {
        (parse_int(s), 1)
    }
}

/// A size text whose number, times its unit, fits in a `u64`; larger ones
/// overflow the multiplication.
pub open spec fn size_fits(size: Seq<char>) -> bool {
    let (p, f) = size_parts(trim(size));
    p matches IntParse::Value(x) ==> x * f <= u64::MAX
}

/// A size such as `50G`, `512m` or `1024` as bytes: `K`, `M`, `G` and `T`
/// suffixes are binary units; zero is refused. A number too large for its
/// unit overflows the multiplication; `size_fits_u64` tells such text apart.
pub fn parse_size_to_bytes(size: &str) -> (r: Result<u64, String>)
    requires
        size_fits(size@),
    ensures
        ({
            let (p, f) = size_parts(trim(size@));
            match p {
                IntParse::Value(x) => if x * f == 0 {
                    r matches Err(e) && e@ == "Size must be greater than zero"@
                } else {
                    r matches Ok(b) && b == x * f
                },
                _ => r matches Err(e) && e@ == "Invalid size number: "@ + int_error_text(p),
            }
        }),
{
    let (parsed, factor) = size_number(size);
    finish(parsed, factor)
}

/// The number of a size text, as `u64::from_str` reads it, and its unit.
fn size_number(size: &str) -> (r: (Result<u64, &'static str>, u64))
    ensures
        ({
            let (p, f) = size_parts(trim(size@));
            &&& r.1 == f
            &&& match p {
                IntParse::Value(x) => r.0 == Ok::<u64, &'static str>(x as u64) && 0 <= x <= u64::MAX,
                p => r.0 matches Err(e) && e@ == int_error_text(p),
            }
        }),
{
    let v = chars_of(size);
    let (a, b) = trim_bounds(&v);
    let ghost s = v@.subrange(a as int, b as int);
    let mut factor: u64 = 1;
    let mut lo = a;
    let mut hi = b;
    if b > a {
        let last = upper_exec(v[b - 1]);
        let f: u64 = if last == 'T' {
            0x100_0000_0000
        } else if last == 'G' {
            0x4000_0000
        } else if last == 'M' {
            0x10_0000
        } else if last == 'K' {
            1024
        } else {
            0
        };
        assert(s.last() == v@[b - 1]);
        if f > 0 {
            factor = f;
            let mut piece: Vec<char> = Vec::new();
            let mut i = a;
            while i < b - 1
                invariant
                    a <= i <= b - 1,
                    b <= v@.len(),
                    piece@ == v@.subrange(a as int, i as int),
                decreases b - 1 - i,
            {
                piece.push(v[i]);
                i = i + 1;
                assert(piece@ =~= v@.subrange(a as int, i as int));
            }
            let (p0, p1) = trim_bounds(&piece);
            assert(s.drop_last() =~= piece@);
            let parsed = parse_int_range(&piece, p0, p1);
            return (parsed, factor);
        }
    }
    let parsed = parse_int_range(&v, a, b);
    (parsed, factor)
}


/// Whether a size text stays within a `u64` once multiplied by its unit,
/// the condition `parse_size_to_bytes` needs.
pub fn size_fits_u64(size: &str) -> (r: bool)
    ensures
        r == size_fits(size@),
{
    let (parsed, factor) = size_number(size);
    match parsed {
        Ok(x) => x.checked_mul(factor).is_some(),
        Err(_) => true,
    }
}

fn finish(parsed: Result<u64, &'static str>, factor: u64) -> (r: Result<u64, String>)
    requires
        parsed matches Ok(x) ==> x * factor <= u64::MAX,
    ensures
        match parsed {
            Ok(x) => if x * factor == 0 {
                r matches Err(e) && e@ == "Size must be greater than zero"@
            } else {
                r matches Ok(b) && b == x * factor
            },
            Err(e) => r matches Err(m) && m@ == "Invalid size number: "@ + e@,
        },
{
    match parsed {
        Ok(x) => {
            let bytes = x * factor;
            if bytes == 0 {
                Err(owned("Size must be greater than zero"))
            } else {
                Ok(bytes)
            }
        },
        Err(e) => {
            let mut m = owned("Invalid size number: ");
            m.append(e);
            Err(m)
        },
    }
}

/// Where a cloud image is fetched from: the caller's own URL (checked
/// against SSRF by the service), else the catalog entry of that name.
pub fn cloud_image_plan(name: &str, custom_url: Option<&str>) -> (r: Result<String, (u16, String)>)
    ensures
        match custom_url {
            Some(u) => r matches Ok(s) && s@ == u@,
            None => {
                let cat = catalog_names_urls();
                match first_named(cat, name@) {
                    Some(i) => r matches Ok(s) && s@ == cat[i].1,
                    None => r matches Err((c, m)) && c == 404 && m@ == "Cloud image '"@ + name@
                        + "' not found in catalog"@,
                }
            },
        },
{
    if let Some(u) = custom_url {
        return Ok(owned(u));
    }
    let catalog = cloud_image_catalog();
    let ghost cat = catalog@.map_values(|c: CloudImage| (c.name@, c.url@));
    assert(cat == catalog_names_urls());
    let mut i: usize = 0;
    while i < catalog.len()
        invariant
            i <= catalog@.len(),
            custom_url is None,
            cat == catalog@.map_values(|c: CloudImage| (c.name@, c.url@)),
            cat == catalog_names_urls(),
            first_named(cat, name@) == first_named_from(cat, name@, i as int),
        decreases catalog.len() - i,
    {
        if crate::text::str_eq(catalog[i].name.as_str(), name) {
            assert(cat[i as int] == (catalog@[i as int].name@, catalog@[i as int].url@));
            return Ok(owned(catalog[i].url.as_str()));
        }
        assert(cat[i as int] == (catalog@[i as int].name@, catalog@[i as int].url@));
        i = i + 1;
    }
    let mut m = owned("Cloud image '");
    m.append(name);
    m.append("' not found in catalog");
    Err((404, m))
}

/// The catalog as (name, url) pairs, in order.
pub open spec fn catalog_names_urls() -> Seq<(Seq<char>, Seq<char>)> {
    seq![
        ("ubuntu-24.04"@, "https://cloud-images.ubuntu.com/noble/current/noble-server-cloudimg-amd64.img"@),
        ("ubuntu-22.04"@, "https://cloud-images.ubuntu.com/jammy/current/jammy-server-cloudimg-amd64.img"@),
        ("fedora-41"@, "https://download.fedoraproject.org/pub/fedora/linux/releases/41/Cloud/x86_64/images/Fedora-Cloud-Base-Generic-41-1.4.x86_64.qcow2"@),
        ("debian-12"@, "https://cloud.debian.org/images/cloud/bookworm/latest/debian-12-generic-amd64.qcow2"@),
        ("alma-9"@, "https://repo.almalinux.org/almalinux/9/cloud/x86_64/images/AlmaLinux-9-GenericCloud-latest.x86_64.qcow2"@),
        ("flatcar-stable"@, "https://stable.release.flatcar-linux.net/amd64-usr/current/flatcar_production_kubevirt_image.qcow2"@),
    ]
}

/// Index of the first entry named `name`, from `i` on.
pub open spec fn first_named_from(cat: Seq<(Seq<char>, Seq<char>)>, name: Seq<char>, i: int) -> Option<int>
    decreases cat.len() - i,
{
    if i < 0 || i >= cat.len() {
        None
    } else if cat[i].0 == name {
        Some(i)
    } else {
        first_named_from(cat, name, i + 1)
    }
}

pub open spec fn first_named(cat: Seq<(Seq<char>, Seq<char>)>, name: Seq<char>) -> Option<int> {
    first_named_from(cat, name, 0)
}

/// Index of the last `c` in `s`.
pub open spec fn last_index(s: Seq<char>, c: char) -> Option<int>
    decreases s.len(),
{
    if s.len() == 0 {
        None
    } else if s.last() == c {
        Some(s.len() - 1)
    } else {
        last_index(s.drop_last(), c)
    }
}

/// The extension a URL names: the text after its last `.` (all of it
/// without one), cut at the first `?`.
pub open spec fn url_extension(url: Seq<char>) -> Seq<char> {
    let tail = match last_index(url, '.') {
        Some(i) => url.subrange(i + 1, url.len() as int),
        None => url,
    };
    match crate::text::first_index(tail, '?') {
        Some(j) => tail.subrange(0, j),
        None => tail,
    }
}

/// Where a downloaded cloud image is written:
/// `/var/lib/zyvor-fabricd/images/{name}.{ext}`, the extension taken from
/// the URL when it is one of the `allowed` image formats, else `qcow2`.
pub fn image_dest_path(url: &str, name: &str, allowed: &[String]) -> (r: String)
    ensures
        r@ == "/var/lib/zyvor-fabricd/images/"@ + name@ + "."@ + (if crate::ai::scheduler::has_string(
            allowed@,
            url_extension(url@),
        ) {
            url_extension(url@)
        } else {
            "qcow2"@
        }),
{
    let v = chars_of(url);
    let n = v.len();
    // The last '.'.
    let mut k = n;
    assert(v@.subrange(0, n as int) =~= v@);
    while k > 0 && v[k - 1] != '.'
        invariant
            k <= n,
            n == v@.len(),
            last_index(v@, '.') == last_index(v@.subrange(0, k as int), '.'),
        decreases k,
    {
        proof {
            let t = v@.subrange(0, k as int);
            assert(t.drop_last() =~= v@.subrange(0, k - 1));
        }
        k = k - 1;
    }
    proof {
        assert(v@.subrange(0, n as int) =~= v@);
        if k > 0 {
            let t = v@.subrange(0, k as int);
            assert(t.last() == '.');
        } else {
            assert(v@.subrange(0, 0).len() == 0);
        }
    }
    let start: usize = if k > 0 {
        k
    } else {
        0
    };
    let end = crate::text::find_char_from(&v, '?', start);
    proof {
        let tail = v@.subrange(start as int, n as int);
        if k == 0 {
            assert(tail =~= v@);
        }
        if end < n {
            assert(tail.subrange(0, end - start) =~= v@.subrange(start as int, end as int));
        } else {
            assert(tail =~= v@.subrange(start as int, end as int));
        }
    }
    let ext = string_of_range(&v, start, end);
    assert(ext@ == url_extension(url@));
    let ok = crate::ai::federation::slice_has(allowed, ext.as_str());
    let mut r = owned("/var/lib/zyvor-fabricd/images/");
    r.append(name);
    r.append(".");
    if ok {
        r.append(ext.as_str());
    } else {
        r.append("qcow2");
    }
    r
}

} // verus!
