//! Library lookup on POSIX systems: the arguments that make a compiler or
//! the linker print a link trace, the library paths picked out of that
//! trace, and the check that a picked file is an ELF object.
use vstd::prelude::*;
use crate::paths::{strings_view, split_list};
use crate::dyld::{env_list_of, opt_view};

verus! {

/// A character that `regex::escape` puts a backslash before.
pub open spec fn is_meta(c: char) -> bool {
    c == '\\' || c == '.' || c == '+' || c == '*' || c == '?' || c == '(' || c == ')' || c == '|'
        || c == '[' || c == ']' || c == '{' || c == '}' || c == '^' || c == '$' || c == '#' || c == '&'
        || c == '-' || c == '~'
}

/// The text with a backslash before each regex metacharacter.
pub open spec fn regex_escaped(s: Seq<char>) -> Seq<char>
    decreases s.len(),
{
    if s.len() == 0 {
        Seq::empty()
    } else if is_meta(s.last()) {
        regex_escaped(s.drop_last()) + seq!['\\', s.last()]
    } else {
        regex_escaped(s.drop_last()).push(s.last())
    }
}

/// The texts of the leftmost-first, non-overlapping matches of `pattern` in
/// `text`, in order, as the `regex` crate finds them; none where `pattern`
/// does not compile.
pub uninterp spec fn regex_matches(pattern: Seq<char>, text: Seq<char>) -> Seq<Seq<char>>;

/// Relies on `regex::escape`: a backslash before each of its metacharacters.
#[verifier::external_body]
fn escape_regex(s: &str) -> (r: String)
    ensures
        r@ == regex_escaped(s@),
{
    regex::escape(s)
}

/// Relies on `regex::Regex::new` and `Regex::find_iter`: the text of each
/// match in order; none where the pattern does not compile.
#[verifier::external_body]
fn regex_find_all(pattern: &str, text: &str) -> (r: Vec<String>)
    ensures
        strings_view(r@) == regex_matches(pattern@, text@),
{
    match regex::Regex::new(pattern) {
        Ok(re) => re.find_iter(text).map(|m| m.as_str().to_string()).collect(),
        Err(_) => Vec::new(),
    }
}

/// A token of non-parenthesis, non-space characters that holds
/// `lib<name>.`, with `name` escaped.
pub open spec fn trace_pattern_of(escaped: Seq<char>) -> Seq<char> {
    "[^\\(\\)\\s]*lib"@ + escaped + "\\.[^\\(\\)\\s]*"@
}

pub open spec fn elf_magic(h: Seq<u8>) -> bool {
    h.len() >= 4 && h[0] == 0x7fu8 && h[1] == 0x45u8 && h[2] == 0x4cu8 && h[3] == 0x46u8
}

/// The first candidate whose header is that of an ELF file.
pub open spec fn first_elf(cands: Seq<Seq<char>>, headers: Seq<Seq<u8>>) -> Option<Seq<char>>
    decreases cands.len(),
{
    if cands.len() == 0 || headers.len() == 0 {
        None
    } else if elf_magic(headers[0]) {
        Some(cands[0])
    } else {
        first_elf(cands.skip(1), headers.skip(1))
    }
}

/// `-L <dir>` for each non-empty directory.
pub open spec fn search_dir_args(dirs: Seq<Seq<char>>) -> Seq<Seq<char>>
    decreases dirs.len(),
{
    if dirs.len() == 0 {
        Seq::<Seq<char>>::empty()
    } else if dirs.last().len() == 0 {
        search_dir_args(dirs.drop_last())
    } else {
        search_dir_args(dirs.drop_last()) + seq!["-L"@, dirs.last()]
    }
}

pub open spec fn link_flag_of(name: Seq<char>) -> Seq<char> {
    "-l"@ + name
}

/// The pattern that picks library paths for `name` out of a link trace.
pub fn trace_pattern(name: &str) -> (r: String)
    ensures
        r@ == trace_pattern_of(regex_escaped(name@)),
{
    let escaped = escape_regex(name);
    let mut r = String::from_str("[^\\(\\)\\s]*lib");
    r.append(escaped.as_str());
    r.append("\\.[^\\(\\)\\s]*");
    r
}

/// The paths of files named `lib<name>.*` in a link trace, in order of
/// appearance.
pub fn trace_candidates(name: &str, trace: &str) -> (r: Vec<String>)
    ensures
        strings_view(r@) == regex_matches(trace_pattern_of(regex_escaped(name@)), trace@),
{
    let pattern = trace_pattern(name);
    regex_find_all(pattern.as_str(), trace)
}

/// Whether a file's first bytes are the ELF magic number.
pub fn is_elf(header: &[u8]) -> (r: bool)
    ensures
        r == elf_magic(header@),
{
    header.len() >= 4 && header[0] == 0x7fu8 && header[1] == 0x45u8 && header[2] == 0x4cu8
        && header[3] == 0x46u8
}

/// The first candidate whose header, at the same position, is that of an
/// ELF file.
pub fn select_elf(cands: &Vec<String>, headers: &Vec<Vec<u8>>) -> (r: Option<String>)
    ensures
        opt_view(r) == first_elf(strings_view(cands@), headers@.map_values(|h: Vec<u8>| h@)),
{
    let ghost cs = strings_view(cands@);
    let ghost hs = headers@.map_values(|h: Vec<u8>| h@);
    assert(cs.skip(0) =~= cs);
    assert(hs.skip(0) =~= hs);
    let mut i: usize = 0;
    while i < cands.len() && i < headers.len()
        invariant
            i <= cands@.len(),
            i <= headers@.len(),
            cs == strings_view(cands@),
            hs == headers@.map_values(|h: Vec<u8>| h@),
            first_elf(cs, hs) == first_elf(cs.skip(i as int), hs.skip(i as int)),
        decreases cands.len() - i,
    {
        assert(cs.skip(i as int).skip(1) =~= cs.skip(i as int + 1));
        assert(hs.skip(i as int).skip(1) =~= hs.skip(i as int + 1));
        assert(hs.skip(i as int)[0] == headers@[i as int]@);
        assert(cs.skip(i as int)[0] == cands@[i as int]@);
        if is_elf(headers[i].as_slice()) {
            return Some(cands[i].clone());
        }
        i = i + 1;
    }
    None
}

/// `-l<name>`.
pub fn link_flag(name: &str) -> (r: String)
    ensures
        r@ == link_flag_of(name@),
{
    let mut r = String::from_str("-l");
    r.append(name);
    r
}

/// The arguments that make a C compiler link `name` into `output` and
/// print the files the linker opens.
pub fn compiler_args(output: &str, name: &str) -> (r: Vec<String>)
    ensures
        strings_view(r@) == seq!["-Wl,-t"@, "-o"@, output@, link_flag_of(name@)],
{
    let r = vec![String::from_str("-Wl,-t"), String::from_str("-o"), String::from_str(output), link_flag(name)];
    assert(strings_view(r@) =~= seq!["-Wl,-t"@, "-o"@, output@, link_flag_of(name@)]);
    r
}

/// The arguments that make the linker look for `name`, also in each
/// directory of `LD_LIBRARY_PATH`, and print the files it opens.
pub fn linker_args(library_path: &Option<String>, name: &str) -> (r: Vec<String>)
    ensures
        strings_view(r@) == seq!["-t"@] + search_dir_args(env_list_of(opt_view(*library_path)))
            + seq!["-o"@, "/dev/null"@, link_flag_of(name@)],
{
    let mut r: Vec<String> = vec![String::from_str("-t")];
    let dirs: Vec<String> = match library_path {
        Some(p) => split_list(p.as_str(), ':'),
        None => Vec::new(),
    };
    let ghost ds = strings_view(dirs@);
    assert(ds == env_list_of(opt_view(*library_path)));
    assert(strings_view(r@) =~= seq!["-t"@] + search_dir_args(ds.take(0)));
    let mut i: usize = 0;
    while i < dirs.len()
        invariant
            i <= dirs@.len(),
            ds == strings_view(dirs@),
            strings_view(r@) == seq!["-t"@] + search_dir_args(ds.take(i as int)),
        decreases dirs.len() - i,
    {
        assert(ds.take(i as int + 1).drop_last() =~= ds.take(i as int));
        assert(ds.take(i as int + 1).last() == dirs@[i as int]@);
        if dirs[i].unicode_len() > 0 {
            let ghost before = strings_view(r@);
            r.push(String::from_str("-L"));
            r.push(dirs[i].clone());
            assert(strings_view(r@) =~= before + seq!["-L"@, dirs@[i as int]@]);
        }
        assert(strings_view(r@) =~= seq!["-t"@] + search_dir_args(ds.take(i as int + 1)));
        i = i + 1;
    }
    assert(ds.take(dirs@.len() as int) =~= ds);
    let ghost before = strings_view(r@);
    r.push(String::from_str("-o"));
    r.push(String::from_str("/dev/null"));
    r.push(link_flag(name));
    assert(strings_view(r@) =~= before + seq!["-o"@, "/dev/null"@, link_flag_of(name@)]);
    r
}

} // verus!
