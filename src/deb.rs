//! Debian package metadata: the `control` file and the `md5sums` list.

use vstd::prelude::*;
use vstd::string::*;

use crate::platform::{arch_name, deb_arch_name, Arch};
use crate::text::{decimal, push_decimal};

verus! {

/// The package's descriptive metadata.
pub struct PackageMetadata {
    pub name: String,
    pub version: String,
    pub author: String,
    pub description: String,
}

/// The Debian-specific settings.
pub struct DebConfig {
    pub section: Option<String>,
    pub priority: String,
    pub depends: Option<String>,
    pub conflicts: Option<String>,
    pub breaks: Option<String>,
    pub replaces: Option<String>,
    pub provides: Option<String>,
}

/// The line `key: value` of a control file.
pub open spec fn field_line(key: Seq<char>, value: Seq<char>) -> Seq<char> {
    key + ": "@ + value + "\n"@
}

/// The line of an optional field: none when it is not set.
pub open spec fn optional_line(key: Seq<char>, value: Option<String>) -> Seq<char> {
    match value {
        Some(v) => field_line(key, v@),
        None => Seq::empty(),
    }
}

/// The text of the `control` file.
pub open spec fn control_text(meta: PackageMetadata, deb: DebConfig, arch: Arch, size: nat) -> Seq<char> {
    field_line("Package"@, meta.name@) + field_line("Version"@, meta.version@) + field_line(
        "Architecture"@,
        deb_arch_name(arch),
    ) + optional_line("Section"@, deb.section) + field_line("Priority"@, deb.priority@)
        + field_line("Standards-Version"@, "3.9.4"@) + field_line("Maintainer"@, meta.author@)
        + field_line("Installed-Size"@, decimal(size)) + optional_line("Depends"@, deb.depends)
        + optional_line("Conflicts"@, deb.conflicts) + optional_line("Breaks"@, deb.breaks)
        + optional_line("Replaces"@, deb.replaces) + optional_line("Provides"@, deb.provides)
        + field_line("Description"@, meta.description@)
}

fn push_field(s: &mut String, key: &str, value: &str)
    ensures
        final(s)@ == old(s)@ + field_line(key@, value@),
{
    s.append(key);
    s.append(": ");
    s.append(value);
    s.append("\n");
    assert(final(s)@ =~= old(s)@ + field_line(key@, value@));
}

fn push_optional(s: &mut String, key: &str, value: &Option<String>)
    ensures
        final(s)@ == old(s)@ + optional_line(key@, *value),
{
    match value {
        Some(v) => push_field(s, key, v.as_str()),
        None => {
            assert(old(s)@ + Seq::<char>::empty() =~= old(s)@);
        },
    }
}

/// The `control` file of a package of `size` kilobytes installed.
pub fn generate_control(meta: &PackageMetadata, deb: &DebConfig, arch: Arch, size: u64) -> (r: String)
    ensures
        r@ == control_text(*meta, *deb, arch, size as nat),
{
    let mut s = String::new();
    push_field(&mut s, "Package", meta.name.as_str());
    push_field(&mut s, "Version", meta.version.as_str());
    push_field(&mut s, "Architecture", arch_name(arch));
    push_optional(&mut s, "Section", &deb.section);
    push_field(&mut s, "Priority", deb.priority.as_str());
    push_field(&mut s, "Standards-Version", "3.9.4");
    push_field(&mut s, "Maintainer", meta.author.as_str());
    let ghost before_size = s@;
    s.append("Installed-Size");
    s.append(": ");
    push_decimal(&mut s, size);
    s.append("\n");
    assert(s@ =~= before_size + field_line("Installed-Size"@, decimal(size as nat)));
    push_optional(&mut s, "Depends", &deb.depends);
    push_optional(&mut s, "Conflicts", &deb.conflicts);
    push_optional(&mut s, "Breaks", &deb.breaks);
    push_optional(&mut s, "Replaces", &deb.replaces);
    push_optional(&mut s, "Provides", &deb.provides);
    push_field(&mut s, "Description", meta.description.as_str());
    assert(s@ =~= control_text(*meta, *deb, arch, size as nat));
    s
}

/// The MD5 digest of some bytes.
pub uninterp spec fn md5_of(data: Seq<u8>) -> Seq<u8>;

/// Relies on md5::compute: the 16-byte MD5 digest of the bytes.
#[verifier::external_body]
fn md5_digest(data: &[u8]) -> (r: Vec<u8>)
    ensures
        r@ == md5_of(data@),
        r@.len() == 16,
{
    md5::compute(data).0.to_vec()
}

/// The lower-case hexadecimal digit for `d`.
pub open spec fn hex_digit(d: int) -> char {
    seq!['0', '1', '2', '3', '4', '5', '6', '7', '8', '9', 'a', 'b', 'c', 'd', 'e', 'f'][d]
}

/// Two lower-case hexadecimal digits per byte, the high one first.
pub open spec fn hex_of(b: Seq<u8>) -> Seq<char>
    decreases b.len(),
{
    if b.len() == 0 {
        Seq::empty()
    } else {
        hex_of(b.drop_last()) + seq![hex_digit(b.last() as int / 16), hex_digit(b.last() as int % 16)]
    }
}

fn hex_str(d: u8) -> (r: &'static str)
    requires
        d < 16,
    ensures
        r@ == seq![hex_digit(d as int)],
{
    proof {
        reveal_strlit("0");
        reveal_strlit("1");
        reveal_strlit("2");
        reveal_strlit("3");
        reveal_strlit("4");
        reveal_strlit("5");
        reveal_strlit("6");
        reveal_strlit("7");
        reveal_strlit("8");
        reveal_strlit("9");
        reveal_strlit("a");
        reveal_strlit("b");
        reveal_strlit("c");
        reveal_strlit("d");
        reveal_strlit("e");
        reveal_strlit("f");
    }
    match d {
        0 => "0",
        1 => "1",
        2 => "2",
        3 => "3",
        4 => "4",
        5 => "5",
        6 => "6",
        7 => "7",
        8 => "8",
        9 => "9",
        10 => "a",
        11 => "b",
        12 => "c",
        13 => "d",
        14 => "e",
        _ => "f",
    }
}

/// Appends the hexadecimal digits of `b` to `s`.
pub fn push_hex(s: &mut String, b: &[u8])
    ensures
        final(s)@ == old(s)@ + hex_of(b@),
{
    let mut i: usize = 0;
    assert(b@.subrange(0, 0) =~= Seq::<u8>::empty());
    assert(s@ =~= old(s)@ + hex_of(b@.subrange(0, 0)));
    while i < b.len()
        invariant
            i <= b@.len(),
            s@ == old(s)@ + hex_of(b@.subrange(0, i as int)),
        decreases b@.len() - i,
    {
        s.append(hex_str(b[i] / 16));
        s.append(hex_str(b[i] % 16));
        assert(b@.subrange(0, i + 1).drop_last() =~= b@.subrange(0, i as int));
        assert(s@ =~= old(s)@ + hex_of(b@.subrange(0, i + 1)));
        i = i + 1;
    }
    assert(b@.subrange(0, b@.len() as int) =~= b@);
}

/// A staged file: its path relative to the package root, and its bytes.
pub struct StagedFile {
    pub path: String,
    pub content: Vec<u8>,
}

/// The `md5sums` line of a file.
pub open spec fn md5sum_line(f: StagedFile) -> Seq<char> {
    hex_of(md5_of(f.content@)) + " "@ + f.path@ + "\n"@
}

/// The `md5sums` text of the files, one line each, in order.
pub open spec fn md5sums_text(files: Seq<StagedFile>) -> Seq<char>
    decreases files.len(),
{
    if files.len() == 0 {
        Seq::empty()
    } else {
        md5sums_text(files.drop_last()) + md5sum_line(files.last())
    }
}

/// The MD5 digest of `data` in lower-case hexadecimal.
pub fn md5_hex(data: &[u8]) -> (r: String)
    ensures
        r@ == hex_of(md5_of(data@)),
        r@.len() == 32,
{
    let d = md5_digest(data);
    let mut s = String::new();
    push_hex(&mut s, d.as_slice());
    proof {
        lemma_hex_len(d@);
    }
    s
}

proof fn lemma_hex_len(b: Seq<u8>)
    ensures
        hex_of(b).len() == 2 * b.len(),
    decreases b.len(),
{
    if b.len() > 0 {
        lemma_hex_len(b.drop_last());
    }
}

/// The `md5sums` list of the files of a package.
pub fn generate_md5sum(files: &Vec<StagedFile>) -> (r: String)
    ensures
        r@ == md5sums_text(files@),
{
    let mut s = String::new();
    let mut k: usize = 0;
    assert(files@.subrange(0, 0) =~= Seq::<StagedFile>::empty());
    assert(s@ =~= md5sums_text(files@.subrange(0, 0)));
    while k < files.len()
        invariant
            k <= files@.len(),
            s@ == md5sums_text(files@.subrange(0, k as int)),
        decreases files@.len() - k,
    {
        let f = &files[k];
        let ghost before = s@;
        let h = md5_hex(f.content.as_slice());
        s.append(h.as_str());
        s.append(" ");
        s.append(f.path.as_str());
        s.append("\n");
        assert(files@.subrange(0, k + 1).drop_last() =~= files@.subrange(0, k as int));
        assert(s@ =~= before + md5sum_line(*f));
        k = k + 1;
    }
    assert(files@.subrange(0, files@.len() as int) =~= files@);
    s
}

/// The list of two runs of files is the list of the first followed by that of
/// the second, so files may be listed one at a time.
pub proof fn md5sums_concat(a: Seq<StagedFile>, b: Seq<StagedFile>)
    ensures
        md5sums_text(a + b) == md5sums_text(a) + md5sums_text(b),
    decreases b.len(),
{
    if b.len() == 0 {
        assert(a + b =~= a);
        assert(md5sums_text(a) + md5sums_text(b) =~= md5sums_text(a));
    } else {
        md5sums_concat(a, b.drop_last());
        assert((a + b).drop_last() =~= a + b.drop_last());
        assert((a + b).last() == b.last());
        assert(md5sums_text(a + b) =~= md5sums_text(a) + md5sums_text(b));
    }
}

} // verus!
