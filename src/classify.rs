//! Which files are media: the kind of a file follows from its extension.
use vstd::prelude::*;

verus! {

/// The kind of a media file.
#[derive(Clone, Copy, Debug, PartialEq, Eq, Structural)]
pub enum FileType {
    Image,
    Video,
}

impl FileType {
    pub open spec fn name(self) -> Seq<char> {
        match self {
            FileType::Image => "image"@,
            FileType::Video => "video"@,
        }
    }

    /// The kind's name as stored with a record: `image` or `video`.
    pub fn as_str(&self) -> (r: &'static str)
        ensures
            r@ == self.name(),
    {
        match self {
            FileType::Image => "image",
            FileType::Video => "video",
        }
    }
}

/// ASCII upper-case letters turned to lower case; every other character kept.
pub open spec fn lower_char(c: char) -> char {
    if 'A' <= c && c <= 'Z' {
        ((c as u8) + 32) as u8 as char
    } else {
        c
    }
}

pub open spec fn ascii_lower(s: Seq<char>) -> Seq<char> {
    s.map_values(|c: char| lower_char(c))
}

pub open spec fn image_extensions() -> Set<Seq<char>> {
    set![
        seq!['j', 'p', 'g'],
        seq!['j', 'p', 'e', 'g'],
        seq!['p', 'n', 'g'],
        seq!['g', 'i', 'f'],
        seq!['b', 'm', 'p'],
        seq!['w', 'e', 'b', 'p'],
        seq!['h', 'e', 'i', 'c'],
    ]
}

pub open spec fn video_extensions() -> Set<Seq<char>> {
    set![
        seq!['m', 'p', '4'],
        seq!['m', 'o', 'v'],
        seq!['a', 'v', 'i'],
        seq!['m', 'k', 'v'],
        seq!['w', 'm', 'v'],
        seq!['f', 'l', 'v'],
        seq!['w', 'e', 'b', 'm'],
    ]
}

/// The kind named by an extension, compared without regard to ASCII case.
pub open spec fn kind_of_extension(ext: Seq<char>) -> Option<FileType> {
    if image_extensions().contains(ascii_lower(ext)) {
        Some(FileType::Image)
    } else if video_extensions().contains(ascii_lower(ext)) {
        Some(FileType::Video)
    } else {
        None
    }
}

/// The index of the last `.` among the first `n` characters of `s`, or -1.
pub open spec fn last_dot(s: Seq<char>, n: int) -> int
    decreases n,
{
    if n <= 0 {
        -1
    } else if s[n - 1] == '.' {
        n - 1
    } else {
        last_dot(s, n - 1)
    }
}

/// The extension of a file name: what follows its last `.`. A name with no
/// `.`, or whose only `.` leads it (a hidden file), has none.
pub open spec fn extension_of(name: Seq<char>) -> Option<Seq<char>> {
    let i = last_dot(name, name.len() as int);
    if i <= 0 {
        None
    } else {
        Some(name.subrange(i + 1, name.len() as int))
    }
}

/// The kind of a file by its name; `None` for a file that is not media.
pub open spec fn kind_of_name(name: Seq<char>) -> Option<FileType> {
    match extension_of(name) {
        Some(ext) => kind_of_extension(ext),
        None => None,
    }
}

proof fn lemma_last_dot_bounds(s: Seq<char>, n: int)
    requires
        n <= s.len(),
    ensures
        -1 <= last_dot(s, n) < n || (n <= 0 && last_dot(s, n) == -1),
        last_dot(s, n) >= 0 ==> s[last_dot(s, n)] == '.',
    decreases n,
{
    if n > 0 && s[n - 1] != '.' {
        lemma_last_dot_bounds(s, n - 1);
    }
}

fn lower(c: char) -> (r: char)
    ensures
        r == lower_char(c),
{
    if 'A' <= c && c <= 'Z' {
        ((c as u8) + 32) as char
    } else {
        c
    }
}

fn is_word3(e: &Vec<char>, a: char, b: char, c: char) -> (r: bool)
    ensures
        r == (e@ == seq![a, b, c]),
{
    let r = e.len() == 3 && e[0] == a && e[1] == b && e[2] == c;
    proof {
        if r {
            assert(e@ =~= seq![a, b, c]);
        }
    }
    r
}

fn is_word4(e: &Vec<char>, a: char, b: char, c: char, d: char) -> (r: bool)
    ensures
        r == (e@ == seq![a, b, c, d]),
{
    let r = e.len() == 4 && e[0] == a && e[1] == b && e[2] == c && e[3] == d;
    proof {
        if r {
            assert(e@ =~= seq![a, b, c, d]);
        }
    }
    r
}

/// The kind named by an already lower-cased extension.
fn kind_of_lowered(e: &Vec<char>) -> (r: Option<FileType>)
    ensures
        image_extensions().contains(e@) ==> r == Some(FileType::Image),
        !image_extensions().contains(e@) && video_extensions().contains(e@)
            ==> r == Some(FileType::Video),
        !image_extensions().contains(e@) && !video_extensions().contains(e@) ==> r is None,
{
    if is_word3(e, 'j', 'p', 'g') || is_word4(e, 'j', 'p', 'e', 'g') || is_word3(e, 'p', 'n', 'g')
        || is_word3(e, 'g', 'i', 'f') || is_word3(e, 'b', 'm', 'p')
        || is_word4(e, 'w', 'e', 'b', 'p') || is_word4(e, 'h', 'e', 'i', 'c') {
        Some(FileType::Image)
    } else if is_word3(e, 'm', 'p', '4') || is_word3(e, 'm', 'o', 'v') || is_word3(e, 'a', 'v', 'i')
        || is_word3(e, 'm', 'k', 'v') || is_word3(e, 'w', 'm', 'v')
        || is_word3(e, 'f', 'l', 'v') || is_word4(e, 'w', 'e', 'b', 'm') {
        Some(FileType::Video)
    } else {
        None
    }
}

/// The kind of the file called `file_name`, by its extension and without
/// regard to ASCII case; `None` for a file that is not media.
pub fn classify(file_name: &str) -> (r: Option<FileType>)
    ensures
        r == kind_of_name(file_name@),
{
    let n = file_name.unicode_len();
    let mut i: usize = n;
    while i > 0 && file_name.get_char(i - 1) != '.'
        invariant
            i <= n,
            n == file_name@.len(),
            last_dot(file_name@, i as int) == last_dot(file_name@, n as int),
        decreases i,
    {
        i = i - 1;
    }
    // `i` is one past the last dot, or 0 where there is none
    proof {
        lemma_last_dot_bounds(file_name@, n as int);
    }
    if i <= 1 {
        return None;
    }
    let mut ext: Vec<char> = Vec::new();
    let mut k: usize = i;
    while k < n
        invariant
            i <= k <= n,
            n == file_name@.len(),
            ext@ =~= ascii_lower(file_name@.subrange(i as int, k as int)),
        decreases n - k,
    {
        let c = file_name.get_char(k);
        ext.push(lower(c));
        k = k + 1;
    }
    proof {
        assert(last_dot(file_name@, n as int) == i - 1);
        assert(extension_of(file_name@) == Some(file_name@.subrange(i as int, n as int)));
    }
    kind_of_lowered(&ext)
}

/// Extensions that differ only in ASCII case name the same kind.
pub proof fn lemma_extension_case_insensitive(a: Seq<char>, b: Seq<char>)
    requires
        ascii_lower(a) == ascii_lower(b),
    ensures
        kind_of_extension(a) == kind_of_extension(b),
{
}

proof fn lemma_last_dot_lowered(a: Seq<char>, b: Seq<char>, n: int)
    requires
        ascii_lower(a) == ascii_lower(b),
        n <= a.len(),
    ensures
        last_dot(a, n) == last_dot(b, n),
    decreases n,
{
    assert(a.len() == ascii_lower(a).len());
    assert(b.len() == ascii_lower(b).len());
    if n > 0 {
        assert(ascii_lower(a)[n - 1] == lower_char(a[n - 1]));
        assert(ascii_lower(b)[n - 1] == lower_char(b[n - 1]));
        lemma_last_dot_lowered(a, b, n - 1);
    }
}

/// File names that differ only in ASCII case have the same kind.
pub proof fn lemma_name_case_insensitive(a: Seq<char>, b: Seq<char>)
    requires
        ascii_lower(a) == ascii_lower(b),
    ensures
        kind_of_name(a) == kind_of_name(b),
{
    assert(a.len() == ascii_lower(a).len());
    assert(b.len() == ascii_lower(b).len());
    lemma_last_dot_lowered(a, b, a.len() as int);
    let i = last_dot(a, a.len() as int);
    if i > 0 {
        lemma_last_dot_bounds(a, a.len() as int);
        let ea = a.subrange(i + 1, a.len() as int);
        let eb = b.subrange(i + 1, b.len() as int);
        assert(ascii_lower(ea) =~= ascii_lower(a).subrange(i + 1, a.len() as int));
        assert(ascii_lower(eb) =~= ascii_lower(b).subrange(i + 1, b.len() as int));
    }
}

} // verus!
