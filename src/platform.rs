//! Target platforms and architectures, and the choice of targets and
//! configuration file from the command line's values.

use vstd::prelude::*;
use vstd::string::*;

use crate::text::same_text;

verus! {

#[derive(Clone, Copy, Debug, PartialEq, Eq, Structural)]
pub enum Arch {
    X86,
    X86_64,
    AArch64,
}

#[derive(Clone, Copy, Debug, PartialEq, Eq, Structural)]
pub enum PlatformTarget {
    Deb,
    Rpm,
    AppImage,
    Nsis,
}

/// The Debian name of an architecture.
pub open spec fn deb_arch_name(arch: Arch) -> Seq<char> {
    match arch {
        Arch::X86 => seq!['i', '3', '8', '6'],
        Arch::X86_64 => seq!['a', 'm', 'd', '6', '4'],
        Arch::AArch64 => seq!['a', 'r', 'm', '6', '4'],
    }
}

pub fn arch_name(arch: Arch) -> (r: &'static str)
    ensures
        r@ == deb_arch_name(arch),
{
    proof {
        reveal_strlit("i386");
        reveal_strlit("amd64");
        reveal_strlit("arm64");
        assert("i386"@ =~= deb_arch_name(Arch::X86));
        assert("amd64"@ =~= deb_arch_name(Arch::X86_64));
        assert("arm64"@ =~= deb_arch_name(Arch::AArch64));
    }
    match arch {
        Arch::X86 => "i386",
        Arch::X86_64 => "amd64",
        Arch::AArch64 => "arm64",
    }
}

/// The targets that every build makes unless the command line names others.
pub open spec fn default_targets_spec() -> Seq<PlatformTarget> {
    seq![PlatformTarget::Deb, PlatformTarget::Rpm, PlatformTarget::AppImage, PlatformTarget::Nsis]
}

/// The targets an `--os` value stands for: `linux` or `win`.
pub open spec fn os_targets(os: Seq<char>) -> Option<Seq<PlatformTarget>> {
    if os == seq!['l', 'i', 'n', 'u', 'x'] {
        Some(seq![PlatformTarget::Deb, PlatformTarget::Rpm, PlatformTarget::AppImage])
    } else if os == seq!['w', 'i', 'n'] {
        Some(seq![PlatformTarget::Nsis])
    } else {
        None
    }
}

/// The targets of a list of `--os` values, in order, or the first value that
/// names no platform.
pub open spec fn targets_of(oses: Seq<Seq<char>>) -> Result<Seq<PlatformTarget>, Seq<char>>
    decreases oses.len(),
{
    if oses.len() == 0 {
        Ok(Seq::empty())
    } else {
        match targets_of(oses.drop_last()) {
            Err(e) => Err(e),
            Ok(prev) => match os_targets(oses.last()) {
                Some(t) => Ok(prev + t),
                None => Err(oses.last()),
            },
        }
    }
}

#[derive(Debug)]
pub enum CmdlineError {
    /// An `--os` value other than `linux` or `win`; it holds the value.
    InvalidOs(String),
}

/// Whether an executable target selection agrees with one over plain values.
pub open spec fn targets_agree(
    r: Result<Vec<PlatformTarget>, CmdlineError>,
    e: Result<Seq<PlatformTarget>, Seq<char>>,
) -> bool {
    match r {
        Ok(t) => e == Ok::<Seq<PlatformTarget>, Seq<char>>(t@),
        Err(CmdlineError::InvalidOs(b)) => e == Err::<Seq<PlatformTarget>, Seq<char>>(b@),
    }
}

pub fn default_targets() -> (r: Vec<PlatformTarget>)
    ensures
        r@ == default_targets_spec(),
{
    let r = vec![PlatformTarget::Deb, PlatformTarget::Rpm, PlatformTarget::AppImage, PlatformTarget::Nsis];
    assert(r@ =~= default_targets_spec());
    r
}

/// The targets to build: the defaults without `--os` values, else those the
/// values stand for.
pub fn select_targets(os_list: Option<&Vec<String>>) -> (r: Result<Vec<PlatformTarget>, CmdlineError>)
    ensures
        targets_agree(
            r,
            match os_list {
                None => Ok(default_targets_spec()),
                Some(oses) => targets_of(oses@.map_values(|o: String| o@)),
            },
        ),
{
    match os_list {
        None => Ok(default_targets()),
        Some(oses) => targets_for_oses(oses),
    }
}

/// The targets that a list of `--os` values stands for.
pub fn targets_for_oses(oses: &Vec<String>) -> (r: Result<Vec<PlatformTarget>, CmdlineError>)
    ensures
        targets_agree(r, targets_of(oses@.map_values(|o: String| o@))),
{
    let ghost vs = oses@.map_values(|o: String| o@);
    proof {
        reveal_strlit("linux");
        reveal_strlit("win");
        assert("linux"@ =~= seq!['l', 'i', 'n', 'u', 'x']);
        assert("win"@ =~= seq!['w', 'i', 'n']);
    }
    let mut targets: Vec<PlatformTarget> = Vec::new();
    let mut k: usize = 0;
    assert(vs.subrange(0, 0) =~= Seq::<Seq<char>>::empty());
    while k < oses.len()
        invariant
            k <= oses@.len(),
            vs == oses@.map_values(|o: String| o@),
            "linux"@ == seq!['l', 'i', 'n', 'u', 'x'],
            "win"@ == seq!['w', 'i', 'n'],
            targets_of(vs.subrange(0, k as int)) == Ok::<Seq<PlatformTarget>, Seq<char>>(targets@),
        decreases oses@.len() - k,
    {
        assert(vs.subrange(0, k + 1).drop_last() =~= vs.subrange(0, k as int));
        assert(vs.subrange(0, k + 1).last() == oses@[k as int]@);
        let os = oses[k].as_str();
        if same_text(os, "linux") {
            let ghost before = targets@;
            targets.push(PlatformTarget::Deb);
            targets.push(PlatformTarget::Rpm);
            targets.push(PlatformTarget::AppImage);
            assert(targets@ =~= before + seq![PlatformTarget::Deb, PlatformTarget::Rpm, PlatformTarget::AppImage]);
        } else if same_text(os, "win") {
            let ghost before = targets@;
            targets.push(PlatformTarget::Nsis);
            assert(targets@ =~= before + seq![PlatformTarget::Nsis]);
        } else {
            proof {
                lemma_targets_error(vs, k as int);
            }
            return Err(CmdlineError::InvalidOs(os.to_owned()));
        }
        k = k + 1;
    }
    assert(vs.subrange(0, oses@.len() as int) =~= vs);
    Ok(targets)
}

proof fn lemma_targets_error(oses: Seq<Seq<char>>, k: int)
    requires
        0 <= k < oses.len(),
        targets_of(oses.subrange(0, k + 1)) is Err,
    ensures
        targets_of(oses) == targets_of(oses.subrange(0, k + 1)),
    decreases oses.len() - k,
{
    if k + 1 < oses.len() {
        assert(oses.subrange(0, k + 2).drop_last() =~= oses.subrange(0, k + 1));
        lemma_targets_error(oses, k + 1);
    } else {
        assert(oses.subrange(0, k + 1) =~= oses);
    }
}

/// The configuration file named on the command line, or `pkg/pifu.toml`.
pub open spec fn primary_config_spec(given: Option<Seq<char>>) -> Seq<char> {
    match given {
        Some(g) => g,
        None => seq!['p', 'k', 'g', '/', 'p', 'i', 'f', 'u', '.', 't', 'o', 'm', 'l'],
    }
}

pub fn primary_config_file(given: Option<&str>) -> (r: String)
    ensures
        r@ == primary_config_spec(
            match given {
                Some(g) => Some(g@),
                None => None,
            },
        ),
{
    proof {
        reveal_strlit("pkg/pifu.toml");
        assert("pkg/pifu.toml"@ =~= seq!['p', 'k', 'g', '/', 'p', 'i', 'f', 'u', '.', 't', 'o', 'm', 'l']);
    }
    match given {
        Some(g) => g.to_owned(),
        None => "pkg/pifu.toml".to_owned(),
    }
}

/// The configuration file to read: the primary one where it exists, else
/// `pifu.toml`.
pub fn config_file(primary: &str, primary_exists: bool) -> (r: String)
    ensures
        primary_exists ==> r@ == primary@,
        !primary_exists ==> r@ == seq!['p', 'i', 'f', 'u', '.', 't', 'o', 'm', 'l'],
{
    proof {
        reveal_strlit("pifu.toml");
        assert("pifu.toml"@ =~= seq!['p', 'i', 'f', 'u', '.', 't', 'o', 'm', 'l']);
    }
    if primary_exists {
        primary.to_owned()
    } else {
        "pifu.toml".to_owned()
    }
}

} // verus!
