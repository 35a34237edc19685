//! The rules of batch mode: which files of a directory tree are configuration
//! files, and which input and output files go with each.

use vstd::prelude::*;
use crate::text::{chars_of, push_chars, push_str, same_text};
use crate::literal::copy_range;

verus! {

/// What `str::to_lowercase` makes of a text.
pub uninterp spec fn lower_of(s: Seq<char>) -> Seq<char>;

/// Every character of `s` is ASCII.
pub open spec fn all_ascii(s: Seq<char>) -> bool {
    forall|i: int| 0 <= i < s.len() ==> (s[i] as u32) < 128
}

/// The lower case of an ASCII character: `A` to `Z` become `a` to `z`, the
/// others stay.
pub open spec fn ascii_lower(c: char) -> char {
    if 'A' <= c <= 'Z' {
        ((c as u32) + 32) as char
    } else {
        c
    }
}

/// Relies on `str::to_lowercase`: its result depends on the characters alone,
/// and an ASCII text has each upper-case letter lowered and nothing else changed.
#[verifier::external_body]
fn lowercase(s: &str) -> (r: String)
    ensures
        r@ == lower_of(s@),
        all_ascii(s@) ==> r@ == s@.map_values(|c: char| ascii_lower(c)),
{
    s.to_lowercase()
}

/// The extension that marks a configuration file, in lower case.
pub const CONFIG_EXTENSION: &'static str = "toml";

/// The extension given to the input file of a configuration.
pub const INPUT_EXTENSION: &'static str = ".in";

/// The extension given to the generated file of a configuration.
pub const OUTPUT_EXTENSION: &'static str = ".rs";

/// The index of the last `.` in `s` before `i`, or -1.
pub open spec fn last_dot_before(s: Seq<char>, i: int) -> int
    decreases i,
{
    if i <= 0 {
        -1
    } else if s[i - 1] == '.' {
        i - 1
    } else {
        last_dot_before(s, i - 1)
    }
}

/// Where a file name splits into stem and extension: its last `.`, unless that
/// is its first character (a name such as `.profile` has no extension).
pub open spec fn split_dot(name: Seq<char>) -> int {
    let k = last_dot_before(name, name.len() as int);
    if k > 0 {
        k
    } else {
        -1
    }
}

/// The stem of a file name: what comes before its extension's dot.
pub open spec fn stem_of(name: Seq<char>) -> Seq<char> {
    let k = split_dot(name);
    if k > 0 {
        name.subrange(0, k)
    } else {
        name
    }
}

/// The extension of a file name, without its dot.
pub open spec fn extension_of(name: Seq<char>) -> Option<Seq<char>> {
    let k = split_dot(name);
    if k > 0 {
        Some(name.subrange(k + 1, name.len() as int))
    } else {
        None
    }
}

/// Whether an extension, already in lower case, marks a configuration file.
pub fn is_config_extension(lowered: &str) -> (r: bool)
    ensures
        r == (lowered@ == CONFIG_EXTENSION@),
{
    same_text(lowered, CONFIG_EXTENSION)
}

proof fn lemma_last_dot(s: Seq<char>, i: int)
    requires
        0 <= i <= s.len(),
    ensures
        last_dot_before(s, i) == -1 || (0 <= last_dot_before(s, i) < i && s[last_dot_before(
            s,
            i,
        )] == '.'),
    decreases i,
{
    if i > 0 && s[i - 1] != '.' {
        lemma_last_dot(s, i - 1);
    }
}

fn find_split(name: &Vec<char>) -> (k: Option<usize>)
    ensures
        match k {
            Some(k) => split_dot(name@) == k && 0 < k < name.len(),
            None => split_dot(name@) == -1,
        },
{
    let mut i: usize = name.len();
    proof {
        lemma_last_dot(name@, name.len() as int);
    }
    while i > 0 && name[i - 1] != '.'
        invariant
            i <= name.len(),
            last_dot_before(name@, i as int) == last_dot_before(name@, name.len() as int),
        decreases i,
    {
        i = i - 1;
    }
    if i > 1 {
        Some(i - 1)
    } else {
        None
    }
}

/// The files that go with one configuration file: the input that is read and
/// the output that is written, in the same relative directory.
#[derive(Debug)]
pub struct ConfigJob {
    /// The stem of the configuration file.
    pub stem: String,
    /// The input file name: the stem and `.in`.
    pub input_name: String,
    /// The output file name: the stem and `.rs`.
    pub output_name: String,
}

/// The job for the file `file_name` when it is a configuration file (its
/// extension is `toml` in any case); `None` for any other file.
pub fn config_job(file_name: &str) -> (r: Option<ConfigJob>)
    ensures
        match extension_of(file_name@) {
            Some(ext) => if lower_of(ext) == CONFIG_EXTENSION@ {
                r matches Some(j) && j.stem@ == stem_of(file_name@) && j.input_name@ == stem_of(
                    file_name@,
                ) + INPUT_EXTENSION@ && j.output_name@ == stem_of(file_name@) + OUTPUT_EXTENSION@
            } else {
                r is None
            },
            None => r is None,
        },
        match extension_of(file_name@) {
            Some(ext) => all_ascii(ext) ==> lower_of(ext) == ext.map_values(
                |c: char| ascii_lower(c),
            ),
            None => true,
        },
{
    let name = chars_of(file_name);
    let k = match find_split(&name) {
        Some(k) => k,
        None => {
            return None;
        },
    };
    let ext_chars = copy_range(&name, k + 1, name.len());
    let mut ext = String::new();
    push_chars(&mut ext, &ext_chars);
    let lowered = lowercase(ext.as_str());
    if !is_config_extension(lowered.as_str()) {
        return None;
    }
    let stem_chars = copy_range(&name, 0, k);
    let mut stem = String::new();
    push_chars(&mut stem, &stem_chars);
    let mut input_name = String::new();
    push_chars(&mut input_name, &stem_chars);
    push_str(&mut input_name, INPUT_EXTENSION);
    let mut output_name = String::new();
    push_chars(&mut output_name, &stem_chars);
    push_str(&mut output_name, OUTPUT_EXTENSION);
    Some(ConfigJob { stem, input_name, output_name })
}

} // verus!
