//! Local names: file and folder names made safe, and the paths of pages,
//! announcements, attachments and links.

use vstd::prelude::*;
use crate::text::{
    concat2, ends_with_seq, ends_with_str, push_str, replace_char, replace_char_str,
    to_owned_string,
};

verus! {

/// A character that `filenamify` never leaves in a name: `<>:"/\|?*`, the
/// C0 controls `U+0000..=U+001F`, and `U+007F..=U+009F`.
pub open spec fn is_reserved_char(c: char) -> bool {
    c == '<' || c == '>' || c == ':' || c == '"' || c == '/' || c == '\\' || c == '|' || c == '?'
        || c == '*' || (c as int) <= 0x1F || (0x7F <= (c as int) && (c as int) <= 0x9F)
}

/// What `filenamify::filenamify` returns for a text.
pub uninterp spec fn spec_filenamify(input: Seq<char>) -> Seq<char>;

/// Calls `filenamify::filenamify`. The contract names its result, and states
/// what its source shows of every result: runs of reserved characters are
/// replaced by `_`, leading and trailing runs of periods by `_`, and a `_`
/// may be appended, so no reserved character is left.
#[verifier::external_body]
fn filenamify_str(input: &str) -> (r: String)
    ensures
        r@ == spec_filenamify(input@),
        forall|i: int| 0 <= i < r@.len() ==> !is_reserved_char(#[trigger] r@[i]),
{
    filenamify::filenamify(input)
}

/// What `regex::Regex::new(pattern)` followed by `replace_all(text,
/// replacement)` gives, or `None` where the pattern does not compile.
pub uninterp spec fn spec_regex_replace_all(pattern: Seq<char>, text: Seq<char>, replacement: Seq<char>) -> Option<Seq<char>>;

/// An ASCII character that the regex crate's `\w` matches: an ASCII letter,
/// an ASCII digit, or `_` (its Unicode word class holds no other ASCII
/// character).
pub open spec fn is_ascii_word_char(c: char) -> bool {
    ('a' <= c && c <= 'z') || ('A' <= c && c <= 'Z') || ('0' <= c && c <= '9') || c == '_'
}

/// Compiles `pattern` with `regex::Regex::new` and, where that succeeds,
/// replaces every match in `text` with `replacement` (`Regex::replace_all`).
/// The contract claims that the result is a function of the three texts, and
/// that the folder-name pattern `[^\w/]+` (a negated class of `\w` and `/`,
/// which the crate's syntax accepts) compiles. Replacing its matches with
/// `_` leaves no ASCII character other than `\w`'s (letters, digits, `_`)
/// and `/`: every character outside the class is inside some match, since
/// `+` never matches empty and the search tries every position. Which
/// non-ASCII characters `\w` matches is left unsaid.
#[verifier::external_body]
fn regex_replace_all(pattern: &str, text: &str, replacement: &str) -> (r: Option<String>)
    ensures
        r.deep_view() == spec_regex_replace_all(pattern@, text@, replacement@),
        pattern@ == folder_name_pattern() ==> r is Some,
        pattern@ == "[^\\w/]+"@ ==> r is Some,
        pattern@ == "[^\\w/]+"@ && replacement@ == "_"@ ==> (r matches Some(t) ==> forall|i: int|
            0 <= i < t@.len() && (#[trigger] t@[i] as int) < 128 ==> is_ascii_word_char(t@[i]) || t@[i] == '/'),
{
    match regex::Regex::new(pattern) {
        Ok(re) => Some(re.replace_all(text, replacement).into_owned()),
        Err(_) => None,
    }
}

/// The last steps of making a file name safe: spaces become `_` and commas
/// are removed.
pub open spec fn spec_finish_file_name(name: Seq<char>) -> Seq<char> {
    replace_char(replace_char(name, ' ', "_"@), ',', ""@)
}

/// A file name made safe: `filenamify`, then spaces become `_` and commas
/// are removed.
pub open spec fn spec_sanitize_file_name(name: Seq<char>) -> Seq<char> {
    spec_finish_file_name(spec_filenamify(name))
}

/// Turns the spaces of a name into `_` and removes its commas; characters it
/// did not hold are not brought in, but for `_`.
pub fn finish_file_name(name: &str) -> (r: String)
    ensures
        r@ == spec_finish_file_name(name@),
        forall|x: char| x != '_' && !name@.contains(x) ==> !r@.contains(x),
        !r@.contains(' ') && !r@.contains(','),
{
    let b = replace_char_str(name, ' ', "_");
    let c = replace_char_str(b.as_str(), ',', "");
    proof {
        reveal_strlit("_");
        reveal_strlit("");
        assert forall|x: char| (x != '_' && !name@.contains(x)) || x == ' ' implies !b@.contains(x) by {
            lemma_replace_char_excludes(name@, ' ', "_"@, x);
        }
        assert forall|x: char| (x != '_' && !name@.contains(x)) || x == ' ' || x == ',' implies !c@.contains(x) by {
            lemma_replace_char_excludes(b@, ',', ""@, x);
        }
    }
    c
}

/// Makes a name safe to use as a file name.
pub fn sanitize_file_name(file_name: &str) -> (r: String)
    ensures
        r@ == spec_sanitize_file_name(file_name@),
        forall|i: int| 0 <= i < r@.len() ==> {
            let c = #[trigger] r@[i];
            !is_reserved_char(c) && c != ' ' && c != ','
        },
{
    let a = filenamify_str(file_name);
    let c = finish_file_name(a.as_str());
    proof {
        assert forall|i: int| 0 <= i < c@.len() implies {
            let ch = #[trigger] c@[i];
            !is_reserved_char(ch) && ch != ' ' && ch != ','
        } by {
            let ch = c@[i];
            assert(c@.contains(ch));
            if is_reserved_char(ch) {
                if a@.contains(ch) {
                    let j = choose|j: int| 0 <= j < a@.len() && a@[j] == ch;
                    assert(!is_reserved_char(a@[j]));
                }
            }
        }
    }
    c
}

/// Replacing can only bring in characters of the replacement.
pub proof fn lemma_replace_char_excludes(s: Seq<char>, c: char, rep: Seq<char>, x: char)
    requires
        !s.contains(x) || x == c,
        !rep.contains(x),
    ensures
        !replace_char(s, c, rep).contains(x),
    decreases s.len(),
{
    if s.len() > 0 {
        let init = s.drop_last();
        assert(!init.contains(x) || x == c) by {
            if init.contains(x) {
                let j = choose|j: int| 0 <= j < init.len() && init[j] == x;
                assert(s[j] == x);
            }
        }
        lemma_replace_char_excludes(init, c, rep, x);
        let head = replace_char(init, c, rep);
        let tail = if s.last() == c { rep } else { seq![s.last()] };
        assert(!tail.contains(x)) by {
            if s.last() != c && tail.contains(x) {
                assert(tail[0] == x);
                assert(s[s.len() - 1] == x);
            }
        }
        assert forall|j: int| 0 <= j < (head + tail).len() implies (head + tail)[j] != x by {
            if j < head.len() {
                assert((head + tail)[j] == head[j]);
            } else {
                assert((head + tail)[j] == tail[j - head.len()]);
            }
        }
    }
}

/// The pattern of characters that folder names keep: word characters and `/`.
pub open spec fn folder_name_pattern() -> Seq<char> {
    "[^\\w/]+"@
}

/// A folder name made safe: each run of characters other than word
/// characters and `/` becomes `_`.
pub open spec fn spec_sanitize_folder_name(name: Seq<char>) -> Seq<char> {
    spec_regex_replace_all(folder_name_pattern(), name, "_"@)->0
}

/// Makes a folder path safe, keeping its `/` separators: every ASCII
/// character of the result is a letter, a digit, `_` or `/` (a run of other
/// characters, such as `.`, ` ` or `&`, has become `_`).
pub fn sanitize_folder_name(folder_name: &str) -> (r: String)
    ensures
        r@ == spec_sanitize_folder_name(folder_name@),
        forall|i: int| 0 <= i < r@.len() && (#[trigger] r@[i] as int) < 128 ==> is_ascii_word_char(r@[i]) || r@[i] == '/',
{
    proof {
        reveal_strlit("_");
        reveal_strlit("[^\\w/]+");
    }
    match regex_replace_all("[^\\w/]+", folder_name, "_") {
        Some(r) => r,
        None => String::new(),
    }
}

/// The name under which a page or an announcement is stored: `filenamify`,
/// then spaces become `_`.
pub open spec fn spec_html_stem(name: Seq<char>) -> Seq<char> {
    replace_char(spec_filenamify(name), ' ', "_"@)
}

/// The path of a page's HTML copy: `<page_dir>/<safe page url>.html`.
pub open spec fn spec_page_destination(page_dir: Seq<char>, page_url: Seq<char>) -> Seq<char> {
    page_dir + "/"@ + spec_html_stem(page_url) + ".html"@
}

/// Where a page is stored.
pub fn page_destination(page_dir: &str, page_url: &str) -> (r: String)
    ensures
        r@ == spec_page_destination(page_dir@, page_url@),
{
    let stem0 = filenamify_str(page_url);
    let stem = replace_char_str(stem0.as_str(), ' ', "_");
    let mut r = to_owned_string(page_dir);
    push_str(&mut r, "/");
    push_str(&mut r, stem.as_str());
    push_str(&mut r, ".html");
    r
}

/// The path of an announcement's HTML copy:
/// `<dir>/<safe "<title>_<id>">.html`.
pub open spec fn spec_announcement_destination(dir: Seq<char>, title: Seq<char>, id: Seq<char>) -> Seq<char> {
    dir + "/"@ + spec_html_stem(title + "_"@ + id) + ".html"@
}

/// Where an announcement is stored.
pub fn announcement_destination(dir: &str, title: &str, id: &str) -> (r: String)
    ensures
        r@ == spec_announcement_destination(dir@, title@, id@),
{
    let mut name = to_owned_string(title);
    push_str(&mut name, "_");
    push_str(&mut name, id);
    let stem0 = filenamify_str(name.as_str());
    let stem = replace_char_str(stem0.as_str(), ' ', "_");
    let mut r = to_owned_string(dir);
    push_str(&mut r, "/");
    push_str(&mut r, stem.as_str());
    push_str(&mut r, ".html");
    r
}

/// The path of a directory `name` under `base`, as it is created:
/// `<base>/<name>/`.
pub fn directory_path(base_path: &str, directory_name: &str) -> (r: String)
    ensures
        r@ == base_path@ + "/"@ + directory_name@ + "/"@,
{
    let mut r = to_owned_string(base_path);
    push_str(&mut r, "/");
    push_str(&mut r, directory_name);
    push_str(&mut r, "/");
    r
}

/// The path `<dir>/<name>`.
pub fn join_path(dir: &str, name: &str) -> (r: String)
    ensures
        r@ == dir@ + "/"@ + name@,
{
    let mut r = to_owned_string(dir);
    push_str(&mut r, "/");
    push_str(&mut r, name);
    r
}

/// The path of a shortcut file: the link path with `.lnk` appended unless it
/// already ends so.
pub fn shortcut_path(link_path: &str) -> (r: String)
    ensures
        r@ == if ends_with_seq(link_path@, ".lnk"@) { link_path@ } else { link_path@ + ".lnk"@ },
{
    if ends_with_str(link_path, ".lnk") {
        to_owned_string(link_path)
    } else {
        concat2(link_path, ".lnk")
    }
}

/// A course's directory: its safe name joined to the destination as a path
/// joins a relative name (a `/` between them unless the destination is empty
/// or already ends with one). The safe name holds no `/` or `\\`, so it is
/// never absolute.
pub open spec fn spec_course_directory(dest: Seq<char>, course_name: Seq<char>) -> Seq<char> {
    let name = spec_sanitize_file_name(course_name);
    if dest.len() == 0 || ends_with_seq(dest, "/"@) {
        dest + name
    } else {
        dest + "/"@ + name
    }
}

/// Where a course is mirrored under the destination directory.
pub fn course_directory(dest: &str, course_name: &str) -> (r: String)
    ensures
        r@ == spec_course_directory(dest@, course_name@),
        !spec_sanitize_file_name(course_name@).contains('/'),
{
    let name = sanitize_file_name(course_name);
    proof {
        if name@.contains('/') {
            let j = choose|j: int| 0 <= j < name@.len() && name@[j] == '/';
            assert(!is_reserved_char(name@[j]));
        }
    }
    let mut r = to_owned_string(dest);
    if dest.is_empty() || ends_with_str(dest, "/") {
        push_str(&mut r, name.as_str());
    } else {
        push_str(&mut r, "/");
        push_str(&mut r, name.as_str());
    }
    r
}

} // verus!
