//! Text primitives shared by the organiser: searching, splitting and joining
//! path-like strings, and decimal rendering of counters.

use vstd::prelude::*;

verus! {

/// `needle` stands in `hay` at position `i`.
pub open spec fn occurs_at(hay: Seq<char>, needle: Seq<char>, i: int) -> bool {
    0 <= i && i + needle.len() <= hay.len() && hay.subrange(i, i + needle.len()) == needle
}

/// `needle` is a contiguous part of `hay`.
pub open spec fn contains_seq(hay: Seq<char>, needle: Seq<char>) -> bool {
    exists|i: int| occurs_at(hay, needle, i)
}

/// Index of the last occurrence of `c` in `s`, or -1 when there is none.
pub open spec fn last_index_of(s: Seq<char>, c: char) -> int
    decreases s.len(),
{
    if s.len() == 0 {
        -1
    } else if s.last() == c {
        s.len() - 1
    } else {
        last_index_of(s.drop_last(), c)
    }
}

/// The text ends in a `.` that is a component of its own.
pub open spec fn ends_in_dot_component(path: Seq<char>) -> bool {
    path.len() >= 1 && path.last() == '.' && (path.len() == 1 || path[path.len() - 2] == '/')
}

/// The length of a path without what follows its final component: every
/// `/` and every `.` component at the end is passed over.
pub open spec fn trimmed_len(path: Seq<char>) -> int
    decreases path.len(),
{
    if path.len() == 0 {
        0
    } else if path.last() == '/' || ends_in_dot_component(path) {
        trimmed_len(path.drop_last())
    } else {
        path.len() as int
    }
}

/// A path up to the end of its final component.
pub open spec fn path_body(path: Seq<char>) -> Seq<char> {
    path.subrange(0, trimmed_len(path))
}

/// The final component of a path: the text between the last `/` and the
/// end, `/` and `.` components at the end passed over. A path that ends in
/// `..`, or that holds nothing but `/` and `.` components, has none.
pub open spec fn final_component(path: Seq<char>) -> Option<Seq<char>> {
    let body = path_body(path);
    let name = body.subrange(last_index_of(body, '/') + 1, body.len() as int);
    if body.len() == 0 || name == seq!['.', '.'] {
        None
    } else {
        Some(name)
    }
}

/// The name of the file that a path leads to: its final component, or the
/// empty text when it has none.
pub open spec fn base_name(path: Seq<char>) -> Seq<char> {
    match final_component(path) {
        Some(name) => name,
        None => Seq::empty(),
    }
}

/// The length of what opens a path before its components: the `/` of an
/// absolute path, or the `.` of one that begins with a `.` component.
pub open spec fn lead_len(path: Seq<char>) -> int {
    if path.len() > 0 && (path[0] == '/' || (path[0] == '.' && (path.len() == 1 || path[1]
        == '/'))) {
        1
    } else {
        0
    }
}

/// The larger of two numbers.
pub open spec fn larger(a: int, b: int) -> int {
    if a > b {
        a
    } else {
        b
    }
}

/// The path without its final component. What ends the remainder is
/// passed over as at the end of any path, but the opening `/` or `.` stays.
/// A path of `.` components alone has the empty parent; the empty path and
/// the root have none.
pub open spec fn parent_of(path: Seq<char>) -> Option<Seq<char>> {
    let body = path_body(path);
    if body.len() == 0 {
        if path.len() > 0 && path[0] == '.' {
            Some(Seq::empty())
        } else {
            None
        }
    } else {
        let cut = larger(last_index_of(body, '/'), lead_len(path));
        let keep = larger(trimmed_len(body.subrange(0, cut)), lead_len(path));
        Some(path.subrange(0, keep))
    }
}

/// The stem of a file name: what stands before its last `.`, unless that
/// dot is missing or opens the name, or the name is `..`.
pub open spec fn stem_of(name: Seq<char>) -> Seq<char> {
    if last_index_of(name, '.') <= 0 || name == seq!['.', '.'] {
        name
    } else {
        name.subrange(0, last_index_of(name, '.'))
    }
}

/// The extension of a file name: what follows its last `.`; none when the
/// dot is missing or opens the name, or the name is `..`.
pub open spec fn extension_of(name: Seq<char>) -> Option<Seq<char>> {
    if last_index_of(name, '.') <= 0 || name == seq!['.', '.'] {
        None
    } else {
        Some(name.subrange(last_index_of(name, '.') + 1, name.len() as int))
    }
}

/// Two path segments joined by `/`.
pub open spec fn joined(base: Seq<char>, segment: Seq<char>) -> Seq<char> {
    base + seq!['/'] + segment
}

/// The character of a decimal digit.
pub open spec fn digit_char(d: nat) -> char {
    if d == 0 {
        '0'
    } else if d == 1 {
        '1'
    } else if d == 2 {
        '2'
    } else if d == 3 {
        '3'
    } else if d == 4 {
        '4'
    } else if d == 5 {
        '5'
    } else if d == 6 {
        '6'
    } else if d == 7 {
        '7'
    } else if d == 8 {
        '8'
    } else {
        '9'
    }
}

/// The decimal digits of `n`, most significant first, without padding.
pub open spec fn decimal(n: nat) -> Seq<char>
    decreases n,
{
    if n < 10 {
        seq![digit_char(n)]
    } else {
        decimal(n / 10).push(digit_char(n % 10))
    }
}

/// What `str::to_lowercase` makes of a text: its Unicode lower-case form.
pub uninterp spec fn lowercase_text(s: Seq<char>) -> Seq<char>;

/// What `str::trim` leaves of a text: the text without the white space
/// before its first and after its last other character.
pub uninterp spec fn trimmed_text(s: Seq<char>) -> Seq<char>;

/// Calls `str::to_lowercase`. The contract only names the result: equal
/// texts have equal lower-case forms.
#[verifier::external_body]
pub(crate) fn lowercase(s: &str) -> (res: String)
    ensures
        res@ == lowercase_text(s@),
{
    s.to_lowercase()
}

/// Calls `str::trim`. The contract only names the result.
#[verifier::external_body]
pub(crate) fn trimmed(s: &str) -> (res: String)
    ensures
        res@ == trimmed_text(s@),
{
    s.trim().to_string()
}

/// A number has at least one digit, and from ten on at least two.
pub proof fn lemma_decimal_len(n: nat)
    ensures
        decimal(n).len() >= 1,
        n >= 10 ==> decimal(n).len() >= 2,
    decreases n,
{
    if n >= 10 {
        lemma_decimal_len(n / 10);
    }
}

/// Different numbers have different digits.
pub proof fn lemma_decimal_injective(a: nat, b: nat)
    requires
        decimal(a) == decimal(b),
    ensures
        a == b,
    decreases a,
{
    lemma_decimal_len(a);
    lemma_decimal_len(b);
    if a < 10 && b < 10 {
        assert(decimal(a)[0] == digit_char(a));
        assert(decimal(b)[0] == digit_char(b));
    } else if a >= 10 && b >= 10 {
        assert(decimal(a).drop_last() =~= decimal(a / 10));
        assert(decimal(b).drop_last() =~= decimal(b / 10));
        assert(decimal(a).last() == digit_char(a % 10));
        assert(decimal(b).last() == digit_char(b % 10));
        lemma_decimal_injective(a / 10, b / 10);
    } else {
        assert(decimal(a).len() != decimal(b).len());
    }
}

/// Where the last occurrence lies: inside the text, on the character
/// sought, with no further occurrence after it.
pub proof fn lemma_last_index_bounds(s: Seq<char>, c: char)
    ensures
        -1 <= last_index_of(s, c) < s.len(),
        last_index_of(s, c) >= 0 ==> s[last_index_of(s, c)] == c,
        forall|j: int| last_index_of(s, c) < j < s.len() ==> s[j] != c,
    decreases s.len(),
{
    if s.len() > 0 && s.last() != c {
        let t = s.drop_last();
        lemma_last_index_bounds(t, c);
        assert forall|j: int| last_index_of(s, c) < j < s.len() implies s[j] != c by {
            if j < t.len() {
                assert(t[j] != c);
            }
        }
    }
}

/// Whether two texts hold the same characters.
pub fn same_text(a: &str, b: &str) -> (res: bool)
    ensures
        res == (a@ == b@),
{
    let x = String::from_str(a);
    let y = String::from_str(b);
    x == y
}

/// `name` is one of the texts in `list`.
pub open spec fn listed(list: Seq<String>, name: Seq<char>) -> bool {
    exists|i: int| 0 <= i < list.len() && (#[trigger] list[i])@ == name
}

/// Whether `name` is one of the texts in `list`.
pub fn is_listed(list: &Vec<String>, name: &str) -> (res: bool)
    ensures
        res == listed(list@, name@),
{
    let wanted = String::from_str(name);
    let mut i: usize = 0;
    while i < list.len()
        invariant
            i <= list.len(),
            wanted@ == name@,
            forall|k: int| 0 <= k < i ==> (#[trigger] list[k])@ != name@,
        decreases list.len() - i,
    {
        if list[i] == wanted {
            return true;
        }
        i += 1;
    }
    false
}

/// Whether `needle` occurs somewhere inside `hay`.
pub fn contains_text(hay: &str, needle: &str) -> (res: bool)
    ensures
        res == contains_seq(hay@, needle@),
{
    let n = hay.unicode_len();
    let m = needle.unicode_len();
    if m > n {
        assert(forall|i: int| !occurs_at(hay@, needle@, i));
        return false;
    }
    let last = n - m;
    let mut i: usize = 0;
    while i < last
        invariant
            n == hay@.len(),
            m == needle@.len(),
            last == n - m,
            i <= last,
            forall|k: int| 0 <= k < i ==> !occurs_at(hay@, needle@, k),
        decreases last - i,
    {
        if same_text(hay.substring_char(i, i + m), needle) {
            assert(occurs_at(hay@, needle@, i as int));
            return true;
        }
        i += 1;
    }
    if same_text(hay.substring_char(last, n), needle) {
        assert(occurs_at(hay@, needle@, last as int));
        return true;
    }
    assert(forall|k: int| !occurs_at(hay@, needle@, k));
    false
}

/// Finds the last occurrence of `c`, as `last_index_of` counts it plus one:
/// 0 stands for "none", `k + 1` for an occurrence at `k`.
pub fn last_position(s: &str, c: char) -> (res: usize)
    ensures
        res as int == last_index_of(s@, c) + 1,
        res <= s@.len(),
{
    let n = s.unicode_len();
    let mut i: usize = n;
    assert(s@.subrange(0, n as int) =~= s@);
    while i > 0
        invariant
            i <= n,
            n == s@.len(),
            last_index_of(s@, c) == last_index_of(s@.subrange(0, i as int), c),
        decreases i,
    {
        let ghost prefix = s@.subrange(0, i as int);
        if s.get_char(i - 1) == c {
            assert(prefix.last() == c);
            return i;
        }
        assert(prefix.drop_last() =~= s@.subrange(0, i - 1));
        i -= 1;
    }
    assert(s@.subrange(0, 0).len() == 0);
    0
}

/// The length of a path up to the end of its final component.
pub fn trimmed_length(path: &str) -> (res: usize)
    ensures
        res as int == trimmed_len(path@),
        res <= path@.len(),
{
    let n = path.unicode_len();
    let mut end: usize = n;
    let mut done = false;
    assert(path@.subrange(0, n as int) =~= path@);
    while !done && end > 0
        invariant
            end <= n,
            n == path@.len(),
            trimmed_len(path@) == trimmed_len(path@.subrange(0, end as int)),
            done ==> trimmed_len(path@.subrange(0, end as int)) == end,
        decreases
                if done {
                    0int
                } else {
                    end + 1
                },
    {
        let ghost prefix = path@.subrange(0, end as int);
        let c = path.get_char(end - 1);
        let strip = if c == '/' {
            true
        } else if c == '.' {
            if end == 1 {
                true
            } else {
                path.get_char(end - 2) == '/'
            }
        } else {
            false
        };
        assert(prefix.last() == c);
        assert(end >= 2 ==> prefix[end - 2] == path@[end - 2]);
        if strip {
            assert(prefix.drop_last() =~= path@.subrange(0, end - 1));
            end -= 1;
        } else {
            done = true;
        }
    }
    assert(end == 0 ==> path@.subrange(0, 0).len() == 0);
    end
}

/// The final component of a path, when it has one.
pub fn final_component_of(path: &str) -> (res: Option<String>)
    ensures
        match res {
            Some(name) => final_component(path@) == Some(name@),
            None => final_component(path@) is None,
        },
{
    let end = trimmed_length(path);
    if end == 0 {
        return None;
    }
    let body = path.substring_char(0, end);
    let k = last_position(body, '/');
    let name = body.substring_char(k, end);
    proof {
        reveal_strlit("..");
    }
    let parent = "..";
    assert(parent@ =~= seq!['.', '.']);
    if same_text(name, parent) {
        None
    } else {
        Some(String::from_str(name))
    }
}

/// The base name of a path: its final component, or the empty text.
pub fn file_name_of(path: &str) -> (res: String)
    ensures
        res@ == base_name(path@),
{
    match final_component_of(path) {
        Some(name) => name,
        None => String::new(),
    }
}

/// The parent of a path: the path without its final component.
pub fn parent_dir(path: &str) -> (res: Option<String>)
    ensures
        match res {
            Some(p) => parent_of(path@) == Some(p@),
            None => parent_of(path@) is None,
        },
{
    let n = path.unicode_len();
    let end = trimmed_length(path);
    if end == 0 {
        if n > 0 && path.get_char(0) == '.' {
            return Some(String::new());
        } else {
            return None;
        }
    }
    let first = path.get_char(0);
    let lead: usize = if first == '/' {
        1
    } else if first == '.' {
        if n == 1 {
            1
        } else if path.get_char(1) == '/' {
            1
        } else {
            0
        }
    } else {
        0
    };
    let body = path.substring_char(0, end);
    let k = last_position(body, '/');
    let cut: usize = if k > lead + 1 {
        k - 1
    } else {
        lead
    };
    let rest = trimmed_length(body.substring_char(0, cut));
    let keep: usize = if rest > lead {
        rest
    } else {
        lead
    };
    assert(path@.subrange(0, end as int).subrange(0, cut as int).len() == cut);
    Some(String::from_str(path.substring_char(0, keep)))
}

/// Splits a file name into stem and extension.
pub fn split_name(name: &str) -> (res: (String, Option<String>))
    ensures
        res.0@ == stem_of(name@),
        match res.1 {
            Some(ext) => extension_of(name@) == Some(ext@),
            None => extension_of(name@) is None,
        },
{
    let n = name.unicode_len();
    let k = last_position(name, '.');
    proof {
        reveal_strlit("..");
    }
    let parent = "..";
    assert(parent@ =~= seq!['.', '.']);
    if k <= 1 || same_text(name, parent) {
        (String::from_str(name), None)
    } else {
        (
            String::from_str(name.substring_char(0, k - 1)),
            Some(String::from_str(name.substring_char(k, n))),
        )
    }
}

/// Joins two path segments with `/`.
pub fn join_path(base: &str, segment: &str) -> (res: String)
    ensures
        res@ == joined(base@, segment@),
{
    proof {
        reveal_strlit("/");
    }
    let sep = "/";
    assert(sep@ =~= seq!['/']);
    String::from_str(base).concat(sep).concat(segment)
}

fn digit_text(d: u32) -> (res: &'static str)
    requires
        d < 10,
    ensures
        res@ == seq![digit_char(d as nat)],
{
    proof {
        reveal_strlit("0");
        reveal_strlit("1");
        reveal_strlit("2");
        reveal_strlit("3");
        reveal_strlit("4");
        reveal_strlit("5");
        reveal_strlit("6");
        reveal_strlit("7");
        reveal_strlit("8");
        reveal_strlit("9");
    }
    let res = if d == 0 {
        "0"
    } else if d == 1 {
        "1"
    } else if d == 2 {
        "2"
    } else if d == 3 {
        "3"
    } else if d == 4 {
        "4"
    } else if d == 5 {
        "5"
    } else if d == 6 {
        "6"
    } else if d == 7 {
        "7"
    } else if d == 8 {
        "8"
    } else {
        "9"
    };
    assert(res@ =~= seq![digit_char(d as nat)]);
    res
}

/// Renders a counter in decimal.
pub fn decimal_text(n: u32) -> (res: String)
    ensures
        res@ == decimal(n as nat),
    decreases n,
{
    if n < 10 {
        String::from_str(digit_text(n))
    } else {
        let head = decimal_text(n / 10);
        let res = head.concat(digit_text(n % 10));
        assert(res@ =~= decimal(n as nat));
        res
    }
}

} // verus!
