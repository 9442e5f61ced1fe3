//! Text helpers: comparing strings, and the path and file-name rules.
//!
//! A path is a string whose components are separated by `/`. Its file name is
//! what follows the last separator; the extension of a file name is what
//! follows its last `.`, unless that dot is its first character.

use vstd::prelude::*;
use vstd::utf8::*;

verus! {

/// Position of the last occurrence of `c` in `s`, or `-1` when `c` does not
/// occur.
pub open spec fn last_index_of(s: Seq<char>, c: char) -> int
    decreases s.len(),
{
    if s.len() == 0 {
        -1
    } else if s.last() == c {
        s.len() - 1
    } else {
        last_index_of(s.drop_last(), c)
    }
}

/// `last_index_of` is either `-1`, and then `c` is nowhere in `s`, or the
/// greatest position that holds `c`.
pub proof fn lemma_last_index_of(s: Seq<char>, c: char)
    ensures
        -1 <= last_index_of(s, c) < s.len(),
        last_index_of(s, c) >= 0 ==> s[last_index_of(s, c)] == c,
        forall|i: int| last_index_of(s, c) < i < s.len() ==> s[i] != c,
    decreases s.len(),
{
    if s.len() > 0 && s.last() != c {
        let front = s.drop_last();
        lemma_last_index_of(front, c);
        assert forall|i: int| last_index_of(s, c) < i < s.len() implies s[i] != c by {
            if i < front.len() {
                assert(front[i] == s[i]);
            }
        }
    }
}

/// Any position that holds `c` with no later occurrence is `last_index_of`.
pub proof fn lemma_last_index_of_is(s: Seq<char>, c: char, at: int)
    requires
        -1 <= at < s.len(),
        at >= 0 ==> s[at] == c,
        forall|i: int| at < i < s.len() ==> s[i] != c,
    ensures
        last_index_of(s, c) == at,
{
    lemma_last_index_of(s, c);
}

/// The part of `path` after its last `/`; the whole of it where there is none.
pub open spec fn spec_file_name(path: Seq<char>) -> Seq<char> {
    path.subrange(last_index_of(path, '/') + 1, path.len() as int)
}

/// The file name of `path` without its extension.
pub open spec fn spec_file_stem(path: Seq<char>) -> Seq<char> {
    let name = spec_file_name(path);
    let dot = last_index_of(name, '.');
    if dot <= 0 {
        name
    } else {
        name.subrange(0, dot)
    }
}

/// What follows the last `.` of the file name of `path`. A file name without
/// a dot, or whose only dot comes first, has no extension.
pub open spec fn spec_extension(path: Seq<char>) -> Option<Seq<char>> {
    let name = spec_file_name(path);
    let dot = last_index_of(name, '.');
    if dot <= 0 {
        None
    } else {
        Some(name.subrange(dot + 1, name.len() as int))
    }
}

/// `directory`, a separator, and `name`.
pub open spec fn spec_join(directory: Seq<char>, name: Seq<char>) -> Seq<char> {
    directory + seq!['/'] + name
}

/// Whether `path` is `directory`, a separator, and at least one more
/// character.
pub open spec fn lies_below(directory: Seq<char>, path: Seq<char>) -> bool {
    &&& path.len() > directory.len() + 1
    &&& path.subrange(0, directory.len() as int) == directory
    &&& path[directory.len() as int] == '/'
}

/// Whether `input` ends with `trailer`.
pub open spec fn spec_ends_with(input: Seq<char>, trailer: Seq<char>) -> bool {
    &&& trailer.len() <= input.len()
    &&& input.subrange(input.len() - trailer.len(), input.len() as int) == trailer
}

/// `input` without `trailer` at its end, where it ends with it.
pub open spec fn spec_match_trailing(input: Seq<char>, trailer: Seq<char>) -> Option<Seq<char>> {
    if spec_ends_with(input, trailer) {
        Some(input.subrange(0, input.len() - trailer.len()))
    } else {
        None
    }
}

/// The file name of a path that was joined from a directory and a name
/// without a separator is that name.
pub proof fn lemma_file_name_of_join(directory: Seq<char>, name: Seq<char>)
    requires
        forall|i: int| 0 <= i < name.len() ==> name[i] != '/',
    ensures
        spec_file_name(spec_join(directory, name)) == name,
{
    let joined = spec_join(directory, name);
    assert forall|i: int| directory.len() < i < joined.len() implies joined[i] != '/' by {
        assert(joined[i] == name[i - directory.len() - 1]);
    }
    lemma_last_index_of_is(joined, '/', directory.len() as int);
    assert(joined.subrange(directory.len() as int + 1, joined.len() as int) =~= name);
}

/// Whether `a` comes before `b` in the order of the dictionary: where they
/// first differ `a` holds the smaller character, or `a` ends there and `b`
/// goes on.
pub open spec fn text_before(a: Seq<char>, b: Seq<char>) -> bool
    decreases a.len(),
{
    if b.len() == 0 {
        false
    } else if a.len() == 0 {
        true
    } else if a[0] != b[0] {
        (a[0] as u32) < (b[0] as u32)
    } else {
        text_before(a.drop_first(), b.drop_first())
    }
}

/// Two texts that agree on their first `n` characters stand to each other
/// as what follows those characters.
pub proof fn lemma_text_before_skips(a: Seq<char>, b: Seq<char>, n: int)
    requires
        0 <= n <= a.len(),
        n <= b.len(),
        forall|i: int| 0 <= i < n ==> a[i] == b[i],
    ensures
        text_before(a, b) == text_before(a.skip(n), b.skip(n)),
    decreases n,
{
    if n == 0 {
        assert(a.skip(0) =~= a);
        assert(b.skip(0) =~= b);
    } else {
        lemma_text_before_skips(a, b, n - 1);
        assert(a.skip(n - 1).drop_first() =~= a.skip(n));
        assert(b.skip(n - 1).drop_first() =~= b.skip(n));
    }
}

/// No text comes before itself.
pub proof fn lemma_text_before_irreflexive(a: Seq<char>)
    ensures
        !text_before(a, a),
    decreases a.len(),
{
    if a.len() > 0 {
        lemma_text_before_irreflexive(a.drop_first());
    }
}

/// What comes before a text comes before all that the text comes before.
pub proof fn lemma_text_before_transitive(a: Seq<char>, b: Seq<char>, c: Seq<char>)
    requires
        text_before(a, b),
        text_before(b, c),
    ensures
        text_before(a, c),
    decreases a.len(),
{
    if a.len() > 0 && a[0] == b[0] && b[0] == c[0] {
        lemma_text_before_transitive(a.drop_first(), b.drop_first(), c.drop_first());
    }
}

/// Of two texts that differ, one comes before the other.
pub proof fn lemma_text_before_total(a: Seq<char>, b: Seq<char>)
    ensures
        a == b || text_before(a, b) || text_before(b, a),
    decreases a.len(),
{
    if a.len() > 0 && b.len() > 0 && a[0] == b[0] {
        lemma_text_before_total(a.drop_first(), b.drop_first());
        if a.drop_first() == b.drop_first() {
            assert(a =~= seq![a[0]] + a.drop_first());
            assert(b =~= seq![b[0]] + b.drop_first());
        }
    } else if a.len() == 0 && b.len() == 0 {
        assert(a =~= b);
    } else if a.len() > 0 && b.len() > 0 {
        char_u32_cast(a[0], a[0] as u32);
        char_u32_cast(b[0], b[0] as u32);
    }
}

/// Two strings hold the same characters exactly when they hold the same bytes.
pub proof fn lemma_same_bytes_same_chars(a: Seq<char>, b: Seq<char>)
    ensures
        (encode_utf8(a) == encode_utf8(b)) <==> (a == b),
{
    encode_utf8_decode_utf8(a);
    encode_utf8_decode_utf8(b);
}

/// Whether `a` and `b` hold the same text.
pub fn str_equal(a: &str, b: &str) -> (same: bool)
    ensures
        same == (a@ == b@),
{
    let x = a.as_bytes();
    let y = b.as_bytes();
    proof {
        lemma_same_bytes_same_chars(a@, b@);
        assert(x@ == encode_utf8(a@));
        assert(y@ == encode_utf8(b@));
    }
    if x.len() != y.len() {
        return false;
    }
    let mut i: usize = 0;
    while i < x.len()
        invariant
            i <= x.len(),
            x.len() == y.len(),
            a@ == b@ ==> x@ == y@,
            forall|j: int| 0 <= j < i ==> x@[j] == y@[j],
        decreases x.len() - i,
    {
        if x[i] != y[i] {
            assert(x@[i as int] != y@[i as int]);
            return false;
        }
        i += 1;
    }
    assert(x@ =~= y@);
    true
}

/// Whether `a` comes before `b` in the order of the dictionary.
pub fn comes_before(a: &str, b: &str) -> (yes: bool)
    ensures
        yes == text_before(a@, b@),
{
    let left = chars_of(a);
    let right = chars_of(b);
    let mut i: usize = 0;
    while i < left.len() && i < right.len()
        invariant
            i <= left.len(),
            i <= right.len(),
            left@ == a@,
            right@ == b@,
            forall|j: int| 0 <= j < i ==> left@[j] == right@[j],
        decreases left.len() - i,
    {
        if left[i] != right[i] {
            proof {
                lemma_text_before_skips(a@, b@, i as int);
            }
            return (left[i] as u32) < (right[i] as u32);
        }
        i += 1;
    }
    proof {
        lemma_text_before_skips(a@, b@, i as int);
    }
    i < right.len()
}

/// The characters of `s`, one by one.
pub fn chars_of(s: &str) -> (out: Vec<char>)
    ensures
        out@ == s@,
{
    let mut out: Vec<char> = Vec::new();
    for c in it: s.chars()
        invariant
            out@ == it.seq().take(it.index() as int),
    {
        out.push(c);
    }
    out
}

/// Position of the last `c` among `chars`, if there is one.
pub fn find_last(chars: &Vec<char>, c: char) -> (found: Option<usize>)
    ensures
        match found {
            Some(at) => at < chars.len() && at as int == last_index_of(chars@, c),
            None => last_index_of(chars@, c) == -1,
        },
{
    let mut i: usize = chars.len();
    while i > 0
        invariant
            i <= chars.len(),
            forall|j: int| i <= j < chars.len() ==> chars@[j] != c,
        decreases i,
    {
        i -= 1;
        if chars[i] == c {
            proof {
                lemma_last_index_of_is(chars@, c, i as int);
            }
            return Some(i);
        }
    }
    proof {
        lemma_last_index_of_is(chars@, c, -1);
    }
    None
}

/// The file name of `path`: what follows its last `/`.
pub fn file_name(path: &str) -> (name: &str)
    ensures
        name@ == spec_file_name(path@),
{
    let chars = chars_of(path);
    let start: usize = match find_last(&chars, '/') {
        Some(at) => at + 1,
        None => 0,
    };
    path.substring_char(start, chars.len())
}

/// The file name of `path` up to its extension.
pub fn file_stem(path: &str) -> (stem: &str)
    ensures
        stem@ == spec_file_stem(path@),
{
    let name = file_name(path);
    let chars = chars_of(name);
    match find_last(&chars, '.') {
        Some(at) => if at == 0 {
            name
        } else {
            let stem = name.substring_char(0, at);
            stem
        },
        None => name,
    }
}

/// The extension of the file name of `path`, if it has one.
pub fn extension(path: &str) -> (ext: Option<&str>)
    ensures
        match ext {
            Some(e) => spec_extension(path@) == Some(e@),
            None => spec_extension(path@) is None,
        },
{
    let name = file_name(path);
    let chars = chars_of(name);
    match find_last(&chars, '.') {
        Some(at) => if at == 0 {
            None
        } else {
            Some(name.substring_char(at + 1, chars.len()))
        },
        None => None,
    }
}

/// `directory`, a separator, and `name`, as one path.
pub fn join(directory: &str, name: &str) -> (path: String)
    ensures
        path@ == spec_join(directory@, name@),
{
    let mut path = directory.to_owned();
    path.append("/");
    path.append(name);
    proof {
        reveal_strlit("/");
        assert("/"@ =~= seq!['/']);
    }
    path
}

/// Whether `input` ends with `trailer`.
pub fn ends_with(input: &Vec<char>, trailer: &Vec<char>) -> (yes: bool)
    ensures
        yes == spec_ends_with(input@, trailer@),
{
    let n: usize = input.len();
    let m: usize = trailer.len();
    if m > n {
        return false;
    }
    let mut i: usize = 0;
    while i < m
        invariant
            i <= m <= n,
            n == input.len(),
            m == trailer.len(),
            forall|j: int| 0 <= j < i ==> input@[n - m + j] == trailer@[j],
        decreases m - i,
    {
        if input[n - m + i] != trailer[i] {
            assert(input@.subrange(n - m, n as int)[i as int] != trailer@[i as int]);
            return false;
        }
        i += 1;
    }
    assert(input@.subrange(n - m, n as int) =~= trailer@);
    true
}

/// Takes `trailer` off the end of `input`. Gives nothing where `input` does
/// not end with it.
pub fn match_trailing<'a>(input: &'a str, trailer: &str) -> (rest: Option<&'a str>)
    ensures
        match rest {
            Some(r) => spec_match_trailing(input@, trailer@) == Some(r@),
            None => spec_match_trailing(input@, trailer@) is None,
        },
{
    let chars = chars_of(input);
    let tail = chars_of(trailer);
    if ends_with(&chars, &tail) {
        Some(input.substring_char(0, chars.len() - tail.len()))
    } else {
        None
    }
}

} // verus!
