//! AppImage staging: its configuration, and the shared libraries that the
//! dependency lister (`ldd`) reports for an executable.

use vstd::prelude::*;
use vstd::string::*;

use crate::fileset::FileSetEntry;
use crate::text::{is_space, is_space_char, same_text};

verus! {

pub struct AppImageConfig {
    /// ELF executables; the libraries they link to dynamically are copied too.
    pub exe_files: Vec<String>,
    /// Whether to copy the dependent libraries into the `libs` folder.
    pub embed_libs: bool,
    /// The file set of the AppImage, if it has one of its own.
    pub files: Option<Vec<FileSetEntry>>,
    /// Libraries that are never copied.
    pub exclude_libs: Vec<String>,
}

/// The libraries that every system provides and that are not embedded.
pub open spec fn default_excluded() -> Seq<Seq<char>> {
    seq![
        seq!['l', 'i', 'b', 'c', '.', 's', 'o', '.', '6'],
        seq!['l', 'i', 'b', 'd', 'l', '.', 's', 'o', '.', '2'],
        seq!['l', 'i', 'b', 'm', '.', 's', 'o', '.', '6'],
        seq!['l', 'i', 'b', 'p', 't', 'h', 'r', 'e', 'a', 'd', '.', 's', 'o', '.', '0'],
    ]
}

pub open spec fn strings_view(v: Seq<String>) -> Seq<Seq<char>> {
    v.map_values(|s: String| s@)
}

pub fn default_exclude_libs() -> (r: Vec<String>)
    ensures
        strings_view(r@) == default_excluded(),
{
    proof {
        reveal_strlit("libc.so.6");
        reveal_strlit("libdl.so.2");
        reveal_strlit("libm.so.6");
        reveal_strlit("libpthread.so.0");
        assert("libc.so.6"@ =~= default_excluded()[0]);
        assert("libdl.so.2"@ =~= default_excluded()[1]);
        assert("libm.so.6"@ =~= default_excluded()[2]);
        assert("libpthread.so.0"@ =~= default_excluded()[3]);
    }
    let r = vec![
        "libc.so.6".to_owned(),
        "libdl.so.2".to_owned(),
        "libm.so.6".to_owned(),
        "libpthread.so.0".to_owned(),
    ];
    assert(strings_view(r@) =~= default_excluded());
    r
}

/// The whitespace-separated words of `s`, in order.
pub open spec fn words(s: Seq<char>) -> Seq<Seq<char>>
    decreases s.len(),
{
    if s.len() == 0 {
        Seq::empty()
    } else if is_space(s.last()) {
        words(s.drop_last())
    } else {
        let w = words(s.drop_last());
        if s.len() >= 2 && !is_space(s[s.len() - 2]) && w.len() > 0 {
            w.drop_last().push(w.last().push(s.last()))
        } else {
            w.push(seq![s.last()])
        }
    }
}

/// The lines of `s`, split at each `\n` (the last one may be empty).
pub open spec fn lines(s: Seq<char>) -> Seq<Seq<char>>
    decreases s.len(),
{
    if s.len() == 0 {
        seq![Seq::empty()]
    } else {
        let l = lines(s.drop_last());
        if s.last() == '\n' {
            l.push(Seq::empty())
        } else if l.len() > 0 {
            l.drop_last().push(l.last().push(s.last()))
        } else {
            seq![seq![s.last()]]
        }
    }
}

/// The library a line of the lister's output reports, as (name, path): the line
/// reads `name => path (address)`, with any white space between the parts.
pub open spec fn library_of_line(line: Seq<char>) -> Option<(Seq<char>, Seq<char>)> {
    let w = words(line);
    if w.len() == 4 && w[1] == seq!['=', '>'] && w[3].len() >= 2 && w[3][0] == '('
        && w[3].last() == ')' {
        Some((w[0], w[2]))
    } else {
        None
    }
}

/// The libraries reported by a sequence of lines, in order; other lines are skipped.
pub open spec fn libraries_of_lines(ls: Seq<Seq<char>>) -> Seq<(Seq<char>, Seq<char>)>
    decreases ls.len(),
{
    if ls.len() == 0 {
        Seq::empty()
    } else {
        let prev = libraries_of_lines(ls.drop_last());
        match library_of_line(ls.last()) {
            Some(lib) => prev.push(lib),
            None => prev,
        }
    }
}

/// The libraries that the lister's whole output reports.
pub open spec fn libraries_of(output: Seq<char>) -> Seq<(Seq<char>, Seq<char>)> {
    libraries_of_lines(lines(output))
}

/// A shared library: its bare file name and where it was found.
pub struct SharedLib {
    pub name: String,
    pub path: String,
}

pub open spec fn libs_view(v: Seq<SharedLib>) -> Seq<(Seq<char>, Seq<char>)> {
    v.map_values(|l: SharedLib| (l.name@, l.path@))
}

/// The words of `s`.
pub fn split_words(s: &str) -> (r: Vec<String>)
    ensures
        strings_view(r@) == words(s@),
{
    let n = s.unicode_len();
    let mut out: Vec<String> = Vec::new();
    let mut start: usize = 0;
    let mut in_word = false;
    let mut i: usize = 0;
    while i < n
        invariant
            n == s@.len(),
            i <= n,
            start <= i,
            in_word <==> (i > 0 && !is_space(s@[i - 1])),
            in_word ==> start < i && forall|k: int| start <= k < i ==> !is_space(s@[k]),
            words(s@.subrange(0, i as int)) == strings_view(out@) + if in_word {
                seq![s@.subrange(start as int, i as int)]
            } else {
                Seq::empty()
            },
        decreases n - i,
    {
        let c = s.get_char(i);
        let ghost pre = s@.subrange(0, i as int);
        let ghost next = s@.subrange(0, i + 1);
        assert(next.drop_last() =~= pre);
        if is_space_char(c) {
            if in_word {
                let w = s.substring_char(start, i).to_owned();
                out.push(w);
                assert(strings_view(out@) =~= words(pre));
            } else {
                assert(strings_view(out@) =~= words(pre));
            }
            in_word = false;
        } else {
            if in_word {
                assert(s@.subrange(start as int, i + 1) =~= s@.subrange(start as int, i as int).push(c));
            } else {
                start = i;
                assert(s@.subrange(start as int, i + 1) =~= seq![c]);
                assert(words(pre) =~= strings_view(out@));
            }
            in_word = true;
        }
        i = i + 1;
    }
    if in_word {
        let w = s.substring_char(start, n).to_owned();
        out.push(w);
    }
    assert(s@.subrange(0, n as int) =~= s@);
    assert(strings_view(out@) =~= words(s@));
    out
}

/// The library that one line of the lister's output reports, if any.
pub fn parse_library_line(line: &str) -> (r: Option<SharedLib>)
    ensures
        match library_of_line(line@) {
            Some(lib) => r matches Some(l) && l.name@ == lib.0 && l.path@ == lib.1,
            None => r is None,
        },
{
    let w = split_words(line);
    proof {
        reveal_strlit("=>");
        assert("=>"@ =~= seq!['=', '>']);
        assert(w@.len() == 4 ==> w@[1]@ == words(line@)[1] && w@[3]@ == words(line@)[3]);
    }
    if w.len() != 4 || !same_text(w[1].as_str(), "=>") {
        return None;
    }
    let a = w[3].as_str();
    let m = a.unicode_len();
    if m < 2 || a.get_char(0) != '(' || a.get_char(m - 1) != ')' {
        return None;
    }
    Some(SharedLib { name: w[0].clone(), path: w[2].clone() })
}

/// The libraries that the lister's output reports, in order of their lines.
pub fn parse_ldd_output(output: &str) -> (r: Vec<SharedLib>)
    ensures
        libs_view(r@) == libraries_of(output@),
{
    let n = output.unicode_len();
    let mut out: Vec<SharedLib> = Vec::new();
    let ghost mut done: Seq<Seq<char>> = Seq::empty();
    let mut start: usize = 0;
    let mut i: usize = 0;
    assert(output@.subrange(0, 0) =~= Seq::<char>::empty());
    assert(lines(Seq::<char>::empty()) =~= done.push(output@.subrange(0, 0)));
    assert(libs_view(out@) =~= Seq::<(Seq<char>, Seq<char>)>::empty());
    while i < n
        invariant
            n == output@.len(),
            start <= i <= n,
            lines(output@.subrange(0, i as int)) == done.push(output@.subrange(start as int, i as int)),
            libs_view(out@) == libraries_of_lines(done),
        decreases n - i,
    {
        let c = output.get_char(i);
        let ghost pre = output@.subrange(0, i as int);
        let ghost next = output@.subrange(0, i + 1);
        assert(next.drop_last() =~= pre);
        if c == '\n' {
            let line = output.substring_char(start, i);
            let ghost with_line = done.push(line@);
            assert(with_line.drop_last() =~= done);
            match parse_library_line(line) {
                Some(lib) => {
                    let ghost before = out@;
                    out.push(lib);
                    assert(libs_view(out@) =~= libs_view(before).push((lib.name@, lib.path@)));
                },
                None => {},
            }
            proof {
                done = with_line;
            }
            start = i + 1;
            assert(output@.subrange(start as int, i + 1) =~= Seq::<char>::empty());
            assert(lines(next) =~= done.push(output@.subrange(start as int, i + 1)));
        } else {
            assert(output@.subrange(start as int, i + 1) =~= output@.subrange(start as int, i as int).push(c));
            assert(lines(next) =~= done.push(output@.subrange(start as int, i + 1)));
        }
        i = i + 1;
    }
    assert(output@.subrange(0, n as int) =~= output@);
    let line = output.substring_char(start, n);
    let ghost all = done.push(line@);
    assert(all.drop_last() =~= done);
    match parse_library_line(line) {
        Some(lib) => {
            let ghost before = out@;
            out.push(lib);
            assert(libs_view(out@) =~= libs_view(before).push((lib.name@, lib.path@)));
        },
        None => {},
    }
    out
}

} // verus!
