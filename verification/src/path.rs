//! Fitting a source location `path:line` into a fixed-width column.
//!
//! Widths are compared in UTF-8 bytes, as the layout does for `str` lengths, while
//! right-alignment pads to a number of characters.

use vstd::prelude::*;
use crate::text::{
    byte_len, char_width, chars_of, decimal, decimal_chars, extend_with, lemma_byte_len_concat,
    lemma_byte_len_ge_len, lemma_byte_len_push,
    string_of, utf8_width,
};

verus! {

/// The marker `src/`.
pub open spec fn src_slash() -> Seq<char> {
    seq!['s', 'r', 'c', '/']
}

/// The marker `src\`.
pub open spec fn src_backslash() -> Seq<char> {
    seq!['s', 'r', 'c', '\\']
}

/// What follows the first occurrence of `pat` in `s`, if `pat` occurs.
pub open spec fn after_first(s: Seq<char>, pat: Seq<char>) -> Option<Seq<char>>
    decreases s.len(),
{
    if pat.len() <= s.len() && s.take(pat.len() as int) == pat {
        Some(s.skip(pat.len() as int))
    } else if s.len() == 0 {
        None
    } else {
        after_first(s.drop_first(), pat)
    }
}

/// The part of `file` after its first `src/`, else after its first `src\`, else `file`.
pub open spec fn relative_path(file: Seq<char>) -> Seq<char> {
    match after_first(file, src_slash()) {
        Some(t) => t,
        None => match after_first(file, src_backslash()) {
            Some(t) => t,
            None => file,
        },
    }
}

/// `c` with a backslash turned into a forward slash.
pub open spec fn forward(c: char) -> char {
    if c == '\\' {
        '/'
    } else {
        c
    }
}

/// `s` with every backslash turned into a forward slash.
pub open spec fn to_forward_slashes(s: Seq<char>) -> Seq<char> {
    Seq::new(s.len(), |i: int| forward(s[i]))
}

/// `s:line`.
pub open spec fn with_line(s: Seq<char>, line: nat) -> Seq<char> {
    s + seq![':'] + decimal(line)
}

/// Index of the last `c` in `s`.
pub open spec fn last_index_of(s: Seq<char>, c: char) -> Option<int>
    decreases s.len(),
{
    if s.len() == 0 {
        None
    } else if s.last() == c {
        Some(s.len() - 1)
    } else {
        last_index_of(s.drop_last(), c)
    }
}

/// Index of the first `c` in `s`.
pub open spec fn first_index_of(s: Seq<char>, c: char) -> Option<int>
    decreases s.len(),
{
    if s.len() == 0 {
        None
    } else if s[0] == c {
        Some(0)
    } else {
        match first_index_of(s.drop_first(), c) {
            Some(i) => Some(i + 1),
            None => None,
        }
    }
}

/// The longest suffix of `s` whose UTF-8 encoding fits in `budget` bytes.
pub open spec fn suffix_within(s: Seq<char>, budget: nat) -> Seq<char>
    decreases s.len(),
{
    if s.len() == 0 || byte_len(s) <= budget {
        s
    } else {
        suffix_within(s.drop_first(), budget)
    }
}

/// `s` right-aligned to `width` characters with leading spaces.
pub open spec fn pad_left(s: Seq<char>, width: nat) -> Seq<char> {
    if s.len() < width {
        Seq::new((width - s.len()) as nat, |i: int| ' ') + s
    } else {
        s
    }
}

/// A directory tail cut from `dir` with no partial leading component: kept whole when the
/// cut falls just after a `/`, else starting after its first `/` (or whole if it has none).
pub open spec fn whole_components(dir: Seq<char>, tail: Seq<char>) -> Seq<char> {
    if tail.len() < dir.len() && dir[dir.len() - tail.len() - 1] == '/' {
        tail
    } else {
        match first_index_of(tail, '/') {
            Some(i) => tail.skip(i + 1),
            None => tail,
        }
    }
}

/// The location path: relative to `src`, with forward slashes.
pub open spec fn location_path(file: Seq<char>) -> Seq<char> {
    to_forward_slashes(relative_path(file))
}

/// Whether `path:line` fits the column whole.
pub open spec fn location_fits(file: Seq<char>, line: nat, width: nat) -> bool {
    byte_len(with_line(location_path(file), line)) <= width
}

/// Whether the file name with its line, plus room for a separator and one more byte,
/// fits the column (the path holding a `/`).
pub open spec fn file_name_fits(file: Seq<char>, line: nat, width: nat) -> bool {
    let path = location_path(file);
    match last_index_of(path, '/') {
        Some(i) => byte_len(with_line(path.skip(i + 1), line)) + 2 <= width,
        None => false,
    }
}

/// The file name after the last `/` of the location path, with its line.
pub open spec fn file_with_line(file: Seq<char>, line: nat) -> Seq<char> {
    let path = location_path(file);
    with_line(path.skip(last_index_of(path, '/').unwrap() + 1), line)
}

/// The directory before the last `/` of the location path.
pub open spec fn directory(file: Seq<char>) -> Seq<char> {
    let path = location_path(file);
    path.take(last_index_of(path, '/').unwrap())
}

/// The location laid out in a column of `width`:
/// - `path:line` right-aligned when it fits;
/// - else, when the file name and line fit with room to spare, the directory is cut from the
///   left to whole components that fit, then `dir/file:line` right-aligned;
/// - else `…` followed by the longest tail of `path:line` that fits in `width - 1` bytes.
pub open spec fn location_in_column(file: Seq<char>, line: nat, width: nat) -> Seq<char> {
    let full = with_line(location_path(file), line);
    if location_fits(file, line, width) {
        pad_left(full, width)
    } else if file_name_fits(file, line, width) {
        let fwl = file_with_line(file, line);
        let dir = directory(file);
        let budget = (width - (byte_len(fwl) + 1)) as nat;
        let kept = whole_components(dir, suffix_within(dir, budget));
        pad_left(kept + seq!['/'] + fwl, width)
    } else {
        seq!['…'] + suffix_within(full, if width >= 1 { (width - 1) as nat } else { 0 })
    }
}

/// `after_first` finds nothing in a sequence shorter than the pattern.
proof fn lemma_after_first_short(s: Seq<char>, pat: Seq<char>)
    requires
        s.len() < pat.len(),
    ensures
        after_first(s, pat) is None,
    decreases s.len(),
{
    if s.len() > 0 {
        lemma_after_first_short(s.drop_first(), pat);
    }
}

/// Whether `src` followed by `sep` occurs in `s` at position `i`.
fn src_at(s: &Vec<char>, i: usize, sep: char) -> (b: bool)
    requires
        i + 4 <= s@.len(),
    ensures
        b == (s@.skip(i as int).take(4) == seq!['s', 'r', 'c', sep]),
{
    assert(i + 3 < s.len());
    let (c0, c1, c2, c3) = (s[i], s[i + 1], s[i + 2], s[i + 3]);
    let b = c0 == 's' && c1 == 'r' && c2 == 'c' && c3 == sep;
    let ghost w = s@.skip(i as int).take(4);
    assert(w[0] == s@[i as int] && w[1] == s@[i + 1] && w[2] == s@[i + 2] && w[3] == s@[i + 3]);
    if b {
        assert(w =~= seq!['s', 'r', 'c', sep]);
    }
    b
}

/// Where the text after the first `src` followed by `sep` starts in `s`.
fn find_after_src(s: &Vec<char>, sep: char) -> (r: Option<usize>)
    ensures
        match r {
            Some(k) => k <= s@.len() && after_first(s@, seq!['s', 'r', 'c', sep]) == Some(
                s@.skip(k as int),
            ),
            None => after_first(s@, seq!['s', 'r', 'c', sep]) is None,
        },
{
    let ghost pat = seq!['s', 'r', 'c', sep];
    let mut i: usize = 0;
    assert(s@.skip(0) =~= s@);
    while i < s.len() && s.len() - i >= 4
        invariant
            i <= s@.len(),
            pat == seq!['s', 'r', 'c', sep],
            after_first(s@, pat) == after_first(s@.skip(i as int), pat),
        decreases s.len() - i,
    {
        let ghost rest = s@.skip(i as int);
        if src_at(s, i, sep) {
            assert(rest.skip(4) =~= s@.skip(i + 4));
            return Some(i + 4);
        }
        assert(rest.drop_first() =~= s@.skip(i + 1));
        i = i + 1;
    }
    proof {
        lemma_after_first_short(s@.skip(i as int), pat);
    }
    None
}

/// The text after the first `src/`, else after the first `src\`, else all of `file`.
fn relative_chars(file: &Vec<char>) -> (r: Vec<char>)
    ensures
        r@ == relative_path(file@),
        byte_len(r@) <= byte_len(file@),
{
    let start = match find_after_src(file, '/') {
        Some(k) => k,
        None => match find_after_src(file, '\\') {
            Some(k) => k,
            None => 0,
        },
    };
    assert(file@.skip(0) =~= file@);
    let mut r: Vec<char> = Vec::new();
    let mut i: usize = start;
    while i < file.len()
        invariant
            start <= i <= file@.len(),
            r@ == file@.subrange(start as int, i as int),
        decreases file.len() - i,
    {
        r.push(file[i]);
        i = i + 1;
        assert(r@ =~= file@.subrange(start as int, i as int));
    }
    assert(r@ =~= file@.skip(start as int));
    proof {
        lemma_byte_len_skip(file@, start as int);
    }
    r
}

/// `s` with every backslash turned into a forward slash.
fn forward_slashes(s: &Vec<char>) -> (r: Vec<char>)
    ensures
        r@ == to_forward_slashes(s@),
{
    let mut r: Vec<char> = Vec::new();
    let mut i: usize = 0;
    while i < s.len()
        invariant
            i <= s@.len(),
            r@ =~= to_forward_slashes(s@.take(i as int)),
        decreases s.len() - i,
    {
        let c = s[i];
        r.push(if c == '\\' { '/' } else { c });
        i = i + 1;
        assert(r@ =~= to_forward_slashes(s@.take(i as int)));
    }
    assert(s@.take(s@.len() as int) =~= s@);
    r
}

/// The bytes of a suffix never exceed those of the whole.
proof fn lemma_byte_len_skip(s: Seq<char>, k: int)
    requires
        0 <= k <= s.len(),
    ensures
        byte_len(s.skip(k)) <= byte_len(s),
        byte_len(s.take(k)) + byte_len(s.skip(k)) == byte_len(s),
{
    assert(s =~= s.take(k) + s.skip(k));
    lemma_byte_len_concat(s.take(k), s.skip(k));
}

/// Unfolds `byte_len` of a suffix by its first character.
proof fn lemma_byte_len_skip_step(s: Seq<char>, k: int)
    requires
        0 <= k < s.len(),
    ensures
        byte_len(s.skip(k)) == char_width(s[k]) + byte_len(s.skip(k + 1)),
{
    assert(s.skip(k).drop_first() =~= s.skip(k + 1));
}

/// Bytes of the UTF-8 encoding of `s`.
fn utf8_len(s: &Vec<char>) -> (n: usize)
    requires
        byte_len(s@) <= usize::MAX,
    ensures
        n == byte_len(s@),
{
    let mut n: usize = 0;
    let mut i: usize = s.len();
    assert(s@.skip(s@.len() as int) =~= Seq::<char>::empty());
    while i > 0
        invariant
            i <= s@.len(),
            byte_len(s@) <= usize::MAX,
            n == byte_len(s@.skip(i as int)),
        decreases i,
    {
        proof {
            lemma_byte_len_skip_step(s@, i - 1);
            lemma_byte_len_skip(s@, i - 1);
        }
        i = i - 1;
        n = n + utf8_width(s[i]);
    }
    assert(s@.skip(0) =~= s@);
    n
}

/// `last_index_of` in terms of positions.
proof fn lemma_last_index_of(s: Seq<char>, c: char)
    ensures
        match last_index_of(s, c) {
            Some(i) => 0 <= i < s.len() && s[i] == c && forall|j: int|
                i < j < s.len() ==> s[j] != c,
            None => forall|j: int| 0 <= j < s.len() ==> s[j] != c,
        },
    decreases s.len(),
{
    if s.len() > 0 && s.last() != c {
        lemma_last_index_of(s.drop_last(), c);
        assert forall|j: int| 0 <= j < s.len() - 1 implies s[j] == s.drop_last()[j] by {}
    }
}

/// `first_index_of` in terms of positions.
proof fn lemma_first_index_of(s: Seq<char>, c: char)
    ensures
        match first_index_of(s, c) {
            Some(i) => 0 <= i < s.len() && s[i] == c && forall|j: int| 0 <= j < i ==> s[j] != c,
            None => forall|j: int| 0 <= j < s.len() ==> s[j] != c,
        },
    decreases s.len(),
{
    if s.len() > 0 && s[0] != c {
        lemma_first_index_of(s.drop_first(), c);
        assert forall|j: int| 1 <= j < s.len() implies s[j] == s.drop_first()[j - 1] by {}
    }
}

/// Positions determine `last_index_of`.
proof fn lemma_last_index_of_unique(s: Seq<char>, c: char, k: Option<int>)
    requires
        match k {
            Some(i) => 0 <= i < s.len() && s[i] == c && forall|j: int|
                i < j < s.len() ==> s[j] != c,
            None => forall|j: int| 0 <= j < s.len() ==> s[j] != c,
        },
    ensures
        last_index_of(s, c) == k,
{
    lemma_last_index_of(s, c);
}

/// Positions determine `first_index_of`.
proof fn lemma_first_index_of_unique(s: Seq<char>, c: char, k: Option<int>)
    requires
        match k {
            Some(i) => 0 <= i < s.len() && s[i] == c && forall|j: int| 0 <= j < i ==> s[j] != c,
            None => forall|j: int| 0 <= j < s.len() ==> s[j] != c,
        },
    ensures
        first_index_of(s, c) == k,
{
    lemma_first_index_of(s, c);
}

/// Index of the last `c` in `s`.
fn last_index(s: &Vec<char>, c: char) -> (r: Option<usize>)
    ensures
        match r {
            Some(i) => last_index_of(s@, c) == Some(i as int),
            None => last_index_of(s@, c) is None,
        },
{
    let mut i: usize = s.len();
    while i > 0
        invariant
            i <= s@.len(),
            forall|j: int| i <= j < s@.len() ==> s@[j] != c,
        decreases i,
    {
        if s[i - 1] == c {
            proof {
                lemma_last_index_of_unique(s@, c, Some(i - 1));
            }
            return Some(i - 1);
        }
        i = i - 1;
    }
    proof {
        lemma_last_index_of_unique(s@, c, None);
    }
    None
}

/// Index of the first `c` in `s`.
fn first_index(s: &Vec<char>, c: char) -> (r: Option<usize>)
    ensures
        match r {
            Some(i) => first_index_of(s@, c) == Some(i as int),
            None => first_index_of(s@, c) is None,
        },
{
    let mut i: usize = 0;
    while i < s.len()
        invariant
            i <= s@.len(),
            forall|j: int| 0 <= j < i ==> s@[j] != c,
        decreases s.len() - i,
    {
        if s[i] == c {
            proof {
                lemma_first_index_of_unique(s@, c, Some(i as int));
            }
            return Some(i);
        }
        i = i + 1;
    }
    proof {
        lemma_first_index_of_unique(s@, c, None);
    }
    None
}

/// Where the longest suffix of `s` fitting in `budget` bytes starts.
fn suffix_start(s: &Vec<char>, budget: usize) -> (k: usize)
    requires
        byte_len(s@) <= usize::MAX,
    ensures
        k <= s@.len(),
        suffix_within(s@, budget as nat) == s@.skip(k as int),
{
    let mut rest = utf8_len(s);
    let mut k: usize = 0;
    assert(s@.skip(0) =~= s@);
    while k < s.len() && rest > budget
        invariant
            k <= s@.len(),
            rest == byte_len(s@.skip(k as int)),
            suffix_within(s@, budget as nat) == suffix_within(s@.skip(k as int), budget as nat),
        decreases s.len() - k,
    {
        proof {
            lemma_byte_len_skip_step(s@, k as int);
            assert(s@.skip(k as int).drop_first() =~= s@.skip(k + 1));
        }
        rest = rest - utf8_width(s[k]);
        k = k + 1;
    }
    k
}

/// The elements of `s` from `start` on.
fn tail_from(s: &Vec<char>, start: usize) -> (r: Vec<char>)
    requires
        start <= s@.len(),
    ensures
        r@ == s@.skip(start as int),
{
    let mut r: Vec<char> = Vec::new();
    let mut i: usize = start;
    while i < s.len()
        invariant
            start <= i <= s@.len(),
            r@ == s@.subrange(start as int, i as int),
        decreases s.len() - i,
    {
        r.push(s[i]);
        i = i + 1;
        assert(r@ =~= s@.subrange(start as int, i as int));
    }
    assert(r@ =~= s@.skip(start as int));
    r
}

/// The first `end` elements of `s`.
fn head_to(s: &Vec<char>, end: usize) -> (r: Vec<char>)
    requires
        end <= s@.len(),
    ensures
        r@ == s@.take(end as int),
{
    let mut r: Vec<char> = Vec::new();
    let mut i: usize = 0;
    while i < end
        invariant
            i <= end <= s@.len(),
            r@ == s@.take(i as int),
        decreases end - i,
    {
        r.push(s[i]);
        i = i + 1;
        assert(r@ =~= s@.take(i as int));
    }
    r
}

/// `s` right-aligned to `width` characters.
fn padded(s: &Vec<char>, width: usize) -> (r: Vec<char>)
    ensures
        r@ == pad_left(s@, width as nat),
{
    let mut r: Vec<char> = Vec::new();
    if s.len() < width {
        let n = width - s.len();
        let mut i: usize = 0;
        while i < n
            invariant
                i <= n,
                r@ == Seq::new(i as nat, |j: int| ' '),
            decreases n - i,
        {
            r.push(' ');
            i = i + 1;
            assert(r@ =~= Seq::new(i as nat, |j: int| ' '));
        }
    }
    extend_with(&mut r, s);
    assert(r@ =~= pad_left(s@, width as nat));
    r
}

/// `s:line`.
fn chars_with_line(s: &Vec<char>, line: u32) -> (r: Vec<char>)
    ensures
        r@ == with_line(s@, line as nat),
        r@.len() <= s@.len() + 11,
{
    let mut r: Vec<char> = Vec::new();
    extend_with(&mut r, s);
    r.push(':');
    let digits = decimal_chars(line);
    extend_with(&mut r, &digits);
    assert(r@ =~= with_line(s@, line as nat));
    r
}

/// Turning backslashes into slashes keeps the byte length.
proof fn lemma_forward_byte_len(s: Seq<char>)
    ensures
        byte_len(to_forward_slashes(s)) == byte_len(s),
    decreases s.len(),
{
    if s.len() > 0 {
        lemma_forward_byte_len(s.drop_first());
        assert(to_forward_slashes(s).drop_first() =~= to_forward_slashes(s.drop_first()));
    }
}

/// Decimal digits take one byte each.
proof fn lemma_decimal_bytes(n: nat)
    ensures
        byte_len(decimal(n)) == decimal(n).len(),
    decreases n,
{
    if n < 10 {
        assert(decimal(n).drop_first() =~= Seq::<char>::empty());
        assert(byte_len(decimal(n).drop_first()) == 0);
        assert(char_width(crate::text::digit_char(n)) == 1);
    } else {
        assert(char_width(crate::text::digit_char(n % 10)) == 1);
        lemma_decimal_bytes(n / 10);
        crate::text::lemma_byte_len_push(decimal(n / 10), crate::text::digit_char(n % 10));
    }
}

/// Bytes of `s:line`.
proof fn lemma_with_line_bytes(s: Seq<char>, line: nat)
    requires
        line <= u32::MAX,
    ensures
        byte_len(with_line(s, line)) == byte_len(s) + 1 + decimal(line).len(),
        decimal(line).len() <= 10,
{
    crate::text::lemma_decimal_len(line);
    lemma_decimal_bytes(line);
    lemma_byte_len_concat(s + seq![':'], decimal(line));
    crate::text::lemma_byte_len_push(s, ':');
    assert(s.push(':') =~= s + seq![':']);
}

/// Lays out the source location `file:line` in a column of `width`, as
/// [`location_in_column`] describes.
pub fn fit_location(file: &str, line: u32, width: usize) -> (r: String)
    requires
        byte_len(file@) <= isize::MAX,
    ensures
        r@ == location_in_column(file@, line as nat, width as nat),
        width >= 1 ==> r@.len() <= width,
        location_fits(file@, line as nat, width as nat) ==> r@.len() == width,
        no_backslash(r@),
{
    proof {
        lemma_location_layout(file@, line as nat, width as nat);
    }
    let file_chars = chars_of(file);
    let rel = relative_chars(&file_chars);
    let path = forward_slashes(&rel);
    let full = chars_with_line(&path, line);
    proof {
        lemma_forward_byte_len(rel@);
        lemma_with_line_bytes(path@, line as nat);
    }
    let full_bytes = utf8_len(&full);
    if full_bytes <= width {
        return string_of(&padded(&full, width));
    }
    match last_index(&path, '/') {
        Some(i) => {
            proof {
                lemma_last_index_of(path@, '/');
            }
            assert(i < path.len());
            let name = tail_from(&path, i + 1);
            let fwl = chars_with_line(&name, line);
            proof {
                lemma_byte_len_skip(path@, i + 1);
                lemma_with_line_bytes(name@, line as nat);
            }
            let fwl_bytes = utf8_len(&fwl);
            if fwl_bytes + 2 <= width {
                let dir = head_to(&path, i);
                proof {
                    lemma_byte_len_skip(path@, i as int);
                }
                let budget = width - (fwl_bytes + 1);
                let k = suffix_start(&dir, budget);
                let tail = tail_from(&dir, k);
                let kept = if k > 0 && dir[k - 1] == '/' {
                    tail
                } else {
                    match first_index(&tail, '/') {
                        Some(j) => {
                            proof {
                                lemma_first_index_of(tail@, '/');
                            }
                            tail_from(&tail, j + 1)
                        },
                        None => tail,
                    }
                };
                assert(kept@ == whole_components(dir@, suffix_within(dir@, budget as nat)));
                let mut out = kept;
                out.push('/');
                extend_with(&mut out, &fwl);
                assert(out@ =~= whole_components(dir@, suffix_within(dir@, budget as nat))
                    + seq!['/'] + fwl@);
                return string_of(&padded(&out, width));
            }
        },
        None => {},
    }
    let budget = if width >= 1 {
        width - 1
    } else {
        0
    };
    let k = suffix_start(&full, budget);
    let mut out: Vec<char> = Vec::new();
    out.push('…');
    extend_with(&mut out, &tail_from(&full, k));
    assert(out@ =~= seq!['…'] + suffix_within(full@, budget as nat));
    string_of(&out)
}

/// No backslash occurs in `s`.
pub open spec fn no_backslash(s: Seq<char>) -> bool {
    forall|i: int| 0 <= i < s.len() ==> s[i] != '\\'
}

/// `suffix_within` gives a suffix that fits its budget.
proof fn lemma_suffix_within(s: Seq<char>, budget: nat)
    ensures
        byte_len(suffix_within(s, budget)) <= budget,
        exists|k: int| 0 <= k <= s.len() && suffix_within(s, budget) == s.skip(k),
    decreases s.len(),
{
    if s.len() == 0 || byte_len(s) <= budget {
        if s.len() == 0 {
            assert(byte_len(s) == 0);
        }
        assert(s.skip(0) =~= s);
    } else {
        lemma_suffix_within(s.drop_first(), budget);
        let k = choose|k: int|
            0 <= k <= s.drop_first().len() && suffix_within(s.drop_first(), budget)
                == s.drop_first().skip(k);
        assert(s.drop_first().skip(k) =~= s.skip(k + 1));
    }
}

/// `whole_components` keeps a suffix of the tail.
proof fn lemma_whole_components(dir: Seq<char>, tail: Seq<char>)
    ensures
        exists|k: int|
            0 <= k <= tail.len() && whole_components(dir, tail) == tail.skip(k),
{
    lemma_first_index_of(tail, '/');
    if tail.len() < dir.len() && dir[dir.len() - tail.len() - 1] == '/' {
        assert(tail.skip(0) =~= tail);
    } else {
        match first_index_of(tail, '/') {
            Some(i) => {
                assert(whole_components(dir, tail) == tail.skip(i + 1));
            },
            None => {
                assert(tail.skip(0) =~= tail);
            },
        }
    }
}

/// Decimal digits hold no backslash.
proof fn lemma_decimal_no_backslash(n: nat)
    ensures
        no_backslash(decimal(n)),
    decreases n,
{
    if n >= 10 {
        lemma_decimal_no_backslash(n / 10);
    }
}

/// The facts about the layout that hold for every input:
/// - the result is never wider than the column (one character when the column is empty);
/// - unless cut with a leading `…`, it is exactly as wide as the column;
/// - a location that fits stays whole, right-aligned;
/// - when only the directory is cut, the result still ends with `/file:line`;
/// - when cut with `…`, it ends with a tail of `path:line` and its UTF-8 encoding takes at most
///   two bytes more than the column (the ellipsis is three bytes wide);
/// - no backslash survives.
pub proof fn lemma_location_layout(file: Seq<char>, line: nat, width: nat)
    requires
        line <= u32::MAX,
    ensures
        ({
            let r = location_in_column(file, line, width);
            let full = with_line(location_path(file), line);
            &&& width >= 1 ==> r.len() <= width
            &&& width == 0 ==> r.len() <= 1
            &&& location_fits(file, line, width) ==> r.len() == width && r.skip(
                r.len() - full.len(),
            ) == full
            &&& !location_fits(file, line, width) && file_name_fits(file, line, width) ==> {
                &&& r.len() == width
                &&& r.skip(r.len() - (file_with_line(file, line).len() + 1)) == seq!['/']
                    + file_with_line(file, line)
            }
            &&& !location_fits(file, line, width) && !file_name_fits(file, line, width) ==> {
                &&& r[0] == '…'
                &&& exists|k: int| 0 <= k <= full.len() && r == seq!['…'] + full.skip(k)
                &&& width >= 1 ==> byte_len(r) <= width + 2
                &&& width >= 1 ==> vstd::utf8::encode_utf8(r).len() <= width + 2
            }
            &&& no_backslash(r)
        }),
{
    let r = location_in_column(file, line, width);
    let path = location_path(file);
    let full = with_line(path, line);
    lemma_with_line_bytes(path, line);
    lemma_byte_len_ge_len(full);
    lemma_decimal_no_backslash(line);
    assert(no_backslash(path));
    assert(no_backslash(full));
    if location_fits(file, line, width) {
        assert(r.skip(r.len() - full.len()) =~= full);
    } else if file_name_fits(file, line, width) {
        let i = last_index_of(path, '/').unwrap();
        lemma_last_index_of(path, '/');
        let fwl = file_with_line(file, line);
        let name = path.skip(i + 1);
        let dir = directory(file);
        let budget = (width - (byte_len(fwl) + 1)) as nat;
        let tail = suffix_within(dir, budget);
        let kept = whole_components(dir, tail);
        lemma_suffix_within(dir, budget);
        lemma_whole_components(dir, tail);
        let k2 = choose|k: int| 0 <= k <= tail.len() && kept == tail.skip(k);
        lemma_byte_len_skip(tail, k2);
        let out = kept + seq!['/'] + fwl;
        lemma_byte_len_concat(kept + seq!['/'], fwl);
        crate::text::lemma_byte_len_push(kept, '/');
        assert(kept.push('/') =~= kept + seq!['/']);
        lemma_byte_len_ge_len(out);
        lemma_with_line_bytes(name, line);
        lemma_decimal_no_backslash(line);
        let k1 = choose|k: int| 0 <= k <= dir.len() && tail == dir.skip(k);
        assert forall|j: int| 0 <= j < kept.len() implies kept[j] != '\\' by {
            assert(kept[j] == dir[k1 + k2 + j]);
            assert(dir[k1 + k2 + j] == path[k1 + k2 + j]);
        }
        assert forall|j: int| 0 <= j < name.len() implies name[j] != '\\' by {
            assert(name[j] == path[i + 1 + j]);
        }
        assert(no_backslash(fwl));
        assert(no_backslash(out));
        assert(r.skip(r.len() - (fwl.len() + 1)) =~= seq!['/'] + fwl);
    } else {
        let budget: nat = if width >= 1 { (width - 1) as nat } else { 0 };
        lemma_suffix_within(full, budget);
        let k = choose|k: int| 0 <= k <= full.len() && suffix_within(full, budget) == full.skip(k);
        lemma_byte_len_ge_len(full.skip(k));
        lemma_byte_len_concat(seq!['…'], full.skip(k));
        assert(seq!['…'].drop_first() =~= Seq::<char>::empty());
        assert(byte_len(seq!['…'].drop_first()) == 0);
        assert(byte_len(seq!['…']) == 3);
        crate::text::lemma_byte_len_is_encoding_len(r);
        assert forall|j: int| 0 <= j < r.len() implies r[j] != '\\' by {
            if j > 0 {
                assert(r[j] == full[k + j - 1]);
            }
        }
    }
}

/// Every character of `s` satisfies `p`.
pub open spec fn every_char(s: Seq<char>, p: spec_fn(char) -> bool) -> bool {
    forall|i: int| 0 <= i < s.len() ==> #[trigger] p(s[i])
}

/// Every character of `s` is ASCII.
pub open spec fn all_ascii(s: Seq<char>) -> bool {
    forall|i: int| 0 <= i < s.len() ==> (#[trigger] s[i] as u32) < 0x80
}

/// An ASCII sequence takes one byte per character.
proof fn lemma_ascii_byte_len(s: Seq<char>)
    requires
        all_ascii(s),
    ensures
        byte_len(s) == s.len(),
    decreases s.len(),
{
    if s.len() > 0 {
        assert(all_ascii(s.drop_first()) && (s[0] as u32) < 0x80) by {
            assert forall|i: int| 0 <= i < s.drop_first().len() implies (
            #[trigger] s.drop_first()[i] as u32) < 0x80 by {
                assert(s.drop_first()[i] == s[i + 1]);
            }
        }
        lemma_ascii_byte_len(s.drop_first());
    }
}

/// For ASCII text, the suffix that fits a budget has exactly as many characters as fit.
proof fn lemma_ascii_suffix_within(s: Seq<char>, budget: nat)
    requires
        all_ascii(s),
    ensures
        suffix_within(s, budget).len() == if s.len() <= budget {
            s.len()
        } else {
            budget
        },
    decreases s.len(),
{
    lemma_ascii_byte_len(s);
    if s.len() > 0 && byte_len(s) > budget {
        assert forall|i: int| 0 <= i < s.drop_first().len() implies (
        #[trigger] s.drop_first()[i] as u32) < 0x80 by {
            assert(s.drop_first()[i] == s[i + 1]);
        }
        lemma_ascii_suffix_within(s.drop_first(), budget);
    }
}

/// The longest fitting suffix keeps any tail that fits on its own.
proof fn lemma_suffix_within_keeps(u: Seq<char>, t: Seq<char>, budget: nat)
    requires
        byte_len(t) <= budget,
    ensures
        exists|k: int| 0 <= k <= u.len() && suffix_within(u + t, budget) == (u + t).skip(k),
    decreases u.len(),
{
    let s = u + t;
    if s.len() == 0 || byte_len(s) <= budget {
        assert(s.skip(0) =~= s);
    } else {
        if u.len() == 0 {
            assert(s =~= t);
        }
        assert(s.drop_first() =~= u.drop_first() + t);
        lemma_suffix_within_keeps(u.drop_first(), t, budget);
        let k = choose|k: int|
            0 <= k <= u.drop_first().len() && suffix_within(u.drop_first() + t, budget) == (
            u.drop_first() + t).skip(k);
        assert((u.drop_first() + t).skip(k) =~= s.skip(k + 1));
    }
}

/// `after_first` gives a suffix.
proof fn lemma_after_first_suffix(s: Seq<char>, pat: Seq<char>)
    ensures
        after_first(s, pat) matches Some(t) ==> exists|k: int| 0 <= k <= s.len() && t == s.skip(k),
    decreases s.len(),
{
    if pat.len() <= s.len() && s.take(pat.len() as int) == pat {
    } else if s.len() > 0 {
        lemma_after_first_suffix(s.drop_first(), pat);
        if let Some(t) = after_first(s, pat) {
            let k = choose|k: int| 0 <= k <= s.drop_first().len() && t == s.drop_first().skip(k);
            assert(s.drop_first().skip(k) =~= s.skip(k + 1));
        }
    }
}

/// The shape of the layout in each of its three cases: `path:line` padded; a directory tail,
/// `/` and `file:line` padded; `…` and a tail of `path:line`.
pub proof fn lemma_location_shape(file: Seq<char>, line: nat, width: nat)
    requires
        line <= u32::MAX,
    ensures
        ({
            let r = location_in_column(file, line, width);
            let full = with_line(location_path(file), line);
            &&& location_fits(file, line, width) ==> r == pad_left(full, width)
            &&& !location_fits(file, line, width) && file_name_fits(file, line, width) ==> exists|
                k: int,
            |
                0 <= k <= directory(file).len() && r == pad_left(
                    directory(file).skip(k) + seq!['/'] + file_with_line(file, line),
                    width,
                )
            &&& !location_fits(file, line, width) && !file_name_fits(file, line, width) ==> exists|
                k: int,
            |
                0 <= k <= full.len() && r == seq!['…'] + full.skip(k)
        }),
{
    let full = with_line(location_path(file), line);
    if !location_fits(file, line, width) && file_name_fits(file, line, width) {
        let fwl = file_with_line(file, line);
        let dir = directory(file);
        let budget = (width - (byte_len(fwl) + 1)) as nat;
        let tail = suffix_within(dir, budget);
        lemma_suffix_within(dir, budget);
        lemma_whole_components(dir, tail);
        let k1 = choose|k: int| 0 <= k <= dir.len() && tail == dir.skip(k);
        let k2 = choose|k: int| 0 <= k <= tail.len() && whole_components(dir, tail) == tail.skip(k);
        assert(tail.skip(k2) =~= dir.skip(k1 + k2));
    } else if !location_fits(file, line, width) {
        let budget: nat = if width >= 1 { (width - 1) as nat } else { 0 };
        lemma_suffix_within(full, budget);
    }
}

/// A property of characters that the location layout keeps: when it holds of the spaces,
/// slashes, colons and digits that the layout adds and of the characters of the file name
/// (with backslashes turned into slashes), it holds of every character of the result but a
/// leading `…`.
pub proof fn lemma_location_chars(file: Seq<char>, line: nat, width: nat, p: spec_fn(char) -> bool)
    requires
        line <= u32::MAX,
        p(' '),
        p('/'),
        p(':'),
        forall|d: nat| d < 10 ==> #[trigger] p(crate::text::digit_char(d)),
        forall|i: int| 0 <= i < file.len() ==> #[trigger] p(forward(file[i])),
    ensures
        ({
            let r = location_in_column(file, line, width);
            &&& !location_fits(file, line, width) && !file_name_fits(file, line, width) ==> r[0]
                == '…' && every_char(r.drop_first(), p)
            &&& location_fits(file, line, width) || file_name_fits(file, line, width)
                ==> every_char(r, p)
            &&& every_char(with_line(location_path(file), line), p)
        }),
{
    let r = location_in_column(file, line, width);
    let path = location_path(file);
    let full = with_line(path, line);
    lemma_location_shape(file, line, width);
    lemma_after_first_suffix(file, src_slash());
    lemma_after_first_suffix(file, src_backslash());
    let rel = relative_path(file);
    if after_first(file, src_slash()) is None && after_first(file, src_backslash()) is None {
        assert(file.skip(0) =~= file);
    }
    assert(exists|k: int| 0 <= k <= file.len() && rel == file.skip(k));
    let kr = choose|k: int| 0 <= k <= file.len() && rel == file.skip(k);
    assert(every_char(path, p)) by {
        assert forall|i: int| 0 <= i < path.len() implies #[trigger] p(path[i]) by {
            assert(path[i] == forward(file[kr + i]));
        }
    }
    lemma_path_chars(file, line, width, p);
}

/// [`lemma_location_chars`] from the location path on: when the property holds of the
/// spaces, slashes, colons and digits that the layout adds and of the location path, it holds
/// of every character of the result but a leading `…`.
proof fn lemma_path_chars(file: Seq<char>, line: nat, width: nat, p: spec_fn(char) -> bool)
    requires
        line <= u32::MAX,
        p(' '),
        p('/'),
        p(':'),
        forall|d: nat| d < 10 ==> #[trigger] p(crate::text::digit_char(d)),
        every_char(location_path(file), p),
    ensures
        ({
            let r = location_in_column(file, line, width);
            &&& !location_fits(file, line, width) && !file_name_fits(file, line, width) ==> r[0]
                == '…' && every_char(r.drop_first(), p)
            &&& location_fits(file, line, width) || file_name_fits(file, line, width)
                ==> every_char(r, p)
            &&& every_char(with_line(location_path(file), line), p)
        }),
{
    let r = location_in_column(file, line, width);
    let path = location_path(file);
    let full = with_line(path, line);
    lemma_location_shape(file, line, width);
    assert(every_char(decimal(line), p)) by {
        lemma_decimal_chars(line, p);
    }
    assert(every_char(full, p)) by {
        assert forall|i: int| 0 <= i < full.len() implies #[trigger] p(full[i]) by {
            if i < path.len() {
                assert(full[i] == path[i]);
            } else if i == path.len() {
                assert(full[i] == ':');
            } else {
                assert(full[i] == decimal(line)[i - path.len() - 1]);
            }
        }
    }
    if location_fits(file, line, width) {
        assert forall|i: int| 0 <= i < r.len() implies #[trigger] p(r[i]) by {
            if r.len() > full.len() && i < r.len() - full.len() {
                assert(r[i] == ' ');
            } else if r.len() > full.len() {
                assert(r[i] == full[i - (r.len() - full.len())]);
            } else {
                assert(r[i] == full[i]);
            }
        }
    } else if file_name_fits(file, line, width) {
        let dir = directory(file);
        let fwl = file_with_line(file, line);
        let i0 = last_index_of(path, '/').unwrap();
        lemma_last_index_of(path, '/');
        let k = choose|k: int|
            0 <= k <= dir.len() && r == pad_left(dir.skip(k) + seq!['/'] + fwl, width);
        let out = dir.skip(k) + seq!['/'] + fwl;
        let name = path.skip(i0 + 1);
        assert(every_char(fwl, p)) by {
            assert forall|j: int| 0 <= j < fwl.len() implies #[trigger] p(fwl[j]) by {
                if j < name.len() {
                    assert(fwl[j] == path[i0 + 1 + j]);
                } else if j == name.len() {
                    assert(fwl[j] == ':');
                } else {
                    assert(fwl[j] == decimal(line)[j - name.len() - 1]);
                }
            }
        }
        assert forall|j: int| 0 <= j < out.len() implies #[trigger] p(out[j]) by {
            if j < dir.len() - k {
                assert(out[j] == path[k + j]);
            } else if j == dir.len() - k {
                assert(out[j] == '/');
            } else {
                assert(out[j] == fwl[j - (dir.len() - k) - 1]);
            }
        }
        assert forall|i: int| 0 <= i < r.len() implies #[trigger] p(r[i]) by {
            if r.len() > out.len() && i < r.len() - out.len() {
                assert(r[i] == ' ');
            } else if r.len() > out.len() {
                assert(r[i] == out[i - (r.len() - out.len())]);
            } else {
                assert(r[i] == out[i]);
            }
        }
    } else {
        let k = choose|k: int| 0 <= k <= full.len() && r == seq!['…'] + full.skip(k);
        assert forall|i: int| 0 <= i < r.drop_first().len() implies #[trigger] p(
            r.drop_first()[i],
        ) by {
            assert(r.drop_first()[i] == full[k + i]);
        }
    }
}

/// The digits satisfy any property every digit has.
proof fn lemma_decimal_chars(n: nat, p: spec_fn(char) -> bool)
    requires
        forall|d: nat| d < 10 ==> #[trigger] p(crate::text::digit_char(d)),
    ensures
        every_char(decimal(n), p),
    decreases n,
{
    if n < 10 {
        assert(p(crate::text::digit_char(n)));
    } else {
        lemma_decimal_chars(n / 10, p);
        assert(p(crate::text::digit_char(n % 10)));
        assert forall|i: int| 0 <= i < decimal(n).len() implies #[trigger] p(decimal(n)[i]) by {
            if i < decimal(n / 10).len() {
                assert(decimal(n)[i] == decimal(n / 10)[i]);
            }
        }
    }
}

/// For an ASCII file name and a column at least one wide, the location is exactly as wide as
/// the column, and its UTF-8 encoding is as long as the column, or two bytes longer when cut
/// with `…`.
pub proof fn lemma_location_ascii(file: Seq<char>, line: nat, width: nat)
    requires
        line <= u32::MAX,
        all_ascii(file),
        width >= 1,
    ensures
        ({
            let r = location_in_column(file, line, width);
            &&& r.len() == width
            &&& byte_len(r) <= width + 2
            &&& vstd::utf8::encode_utf8(r).len() <= width + 2
            &&& location_fits(file, line, width) || file_name_fits(file, line, width) ==> byte_len(r)
                == width
        }),
{
    let r = location_in_column(file, line, width);
    let full = with_line(location_path(file), line);
    let p = |c: char| (c as u32) < 0x80;
    assert forall|i: int| 0 <= i < file.len() implies #[trigger] p(forward(file[i])) by {
        assert((file[i] as u32) < 0x80);
    }
    assert forall|d: nat| d < 10 implies #[trigger] p(crate::text::digit_char(d)) by {}
    lemma_location_chars(file, line, width, p);
    lemma_location_layout(file, line, width);
    lemma_location_shape(file, line, width);
    crate::text::lemma_byte_len_is_encoding_len(r);
    assert(all_ascii(full)) by {
        assert forall|i: int| 0 <= i < full.len() implies (#[trigger] full[i] as u32) < 0x80 by {
            assert(p(full[i]));
        }
    }
    lemma_ascii_byte_len(full);
    if location_fits(file, line, width) || file_name_fits(file, line, width) {
        assert(all_ascii(r)) by {
            assert forall|i: int| 0 <= i < r.len() implies (#[trigger] r[i] as u32) < 0x80 by {
                assert(p(r[i]));
            }
        }
        lemma_ascii_byte_len(r);
    } else {
        let k = choose|k: int| 0 <= k <= full.len() && r == seq!['…'] + full.skip(k);
        let budget = (width - 1) as nat;
        lemma_suffix_within(full, budget);
        lemma_ascii_suffix_within(full, budget);
        assert(r.drop_first() =~= suffix_within(full, budget));
    }
}

/// When the column holds at least `:` and the line number plus one more character, the
/// location always ends with `:line`.
pub proof fn lemma_location_keeps_line(file: Seq<char>, line: nat, width: nat)
    requires
        line <= u32::MAX,
        width >= 2 + decimal(line).len(),
    ensures
        ({
            let r = location_in_column(file, line, width);
            let tail = seq![':'] + decimal(line);
            r.len() >= tail.len() && r.skip(r.len() - tail.len()) == tail
        }),
{
    let r = location_in_column(file, line, width);
    let path = location_path(file);
    let full = with_line(path, line);
    let tail = seq![':'] + decimal(line);
    assert(full =~= path + tail);
    lemma_location_shape(file, line, width);
    if location_fits(file, line, width) {
        assert(r =~= pad_left(full, width));
        assert(r.skip(r.len() - tail.len()) =~= tail);
    } else if file_name_fits(file, line, width) {
        let fwl = file_with_line(file, line);
        let i0 = last_index_of(path, '/').unwrap();
        assert(fwl =~= path.skip(i0 + 1) + tail);
        let k = choose|k: int|
            0 <= k <= directory(file).len() && r == pad_left(
                directory(file).skip(k) + seq!['/'] + fwl,
                width,
            );
        let out = directory(file).skip(k) + seq!['/'] + fwl;
        assert(out.skip(out.len() - tail.len()) =~= tail);
        assert(r.skip(r.len() - tail.len()) =~= tail);
    } else {
        let budget = (width - 1) as nat;
        assert(byte_len(tail) <= budget) by {
            lemma_decimal_bytes(line);
            lemma_byte_len_concat(seq![':'], decimal(line));
            assert(seq![':'].drop_first() =~= Seq::<char>::empty());
            assert(byte_len(seq![':'].drop_first()) == 0);
        }
        lemma_suffix_within_keeps(path, tail, budget);
        let k = choose|k: int|
            0 <= k <= path.len() && suffix_within(path + tail, budget) == (path + tail).skip(k);
        assert(r =~= seq!['…'] + full.skip(k));
        assert(r.skip(r.len() - tail.len()) =~= tail);
    }
}

/// For a location path (the file name after `src/`, slashes forward) without `…` whose
/// location does not fit: the result starts with `…`
/// exactly when the file name and line do not fit either; otherwise it holds no `…` and is a
/// tail of the directory, `/`, and the whole file name with its line, right-aligned.
pub proof fn lemma_location_ellipsis(file: Seq<char>, line: nat, width: nat)
    requires
        line <= u32::MAX,
        !location_fits(file, line, width),
        forall|i: int| 0 <= i < location_path(file).len() ==> location_path(file)[i] != '…',
    ensures
        ({
            let r = location_in_column(file, line, width);
            &&& r.len() > 0
            &&& (r[0] == '…' <==> !file_name_fits(file, line, width))
            &&& file_name_fits(file, line, width) ==> {
                &&& forall|i: int| 0 <= i < r.len() ==> r[i] != '…'
                &&& exists|k: int|
                    0 <= k <= directory(file).len() && r == pad_left(
                        directory(file).skip(k) + seq!['/'] + file_with_line(file, line),
                        width,
                    )
            }
        }),
{
    let r = location_in_column(file, line, width);
    let p = |c: char| c != '…';
    assert forall|d: nat| d < 10 implies #[trigger] p(crate::text::digit_char(d)) by {}
    assert(every_char(location_path(file), p)) by {
        assert forall|i: int| 0 <= i < location_path(file).len() implies #[trigger] p(
            location_path(file)[i],
        ) by {
            assert(location_path(file)[i] != '…');
        }
    }
    lemma_path_chars(file, line, width, p);
    lemma_location_layout(file, line, width);
    lemma_location_shape(file, line, width);
    if file_name_fits(file, line, width) {
        assert forall|i: int| 0 <= i < r.len() implies r[i] != '…' by {
            assert(p(r[i]));
        }
    }
}

/// No suffix of `s` that fits `budget` bytes is longer than the one `suffix_within` keeps.
proof fn lemma_suffix_within_longest(s: Seq<char>, budget: nat, k: int)
    requires
        0 <= k <= s.len(),
        byte_len(s.skip(k)) <= budget,
    ensures
        s.len() - k <= suffix_within(s, budget).len(),
    decreases s.len(),
{
    if s.len() > 0 && byte_len(s) > budget {
        assert(s.skip(0) =~= s);
        assert(s.skip(k) =~= s.drop_first().skip(k - 1));
        lemma_suffix_within_longest(s.drop_first(), budget, k - 1);
    }
}

/// When the location does not fit but the file name and line do, the directory before the
/// file name is cut to one of its tails: the tail fits the bytes left beside `/` and
/// `file:line`; it starts at a whole component (or is the whole directory), or else holds no
/// `/` at all; and no tail of the directory that starts at a whole component and fits is
/// longer than it, so no whole component that fits is dropped.
pub proof fn lemma_location_directory_cut(file: Seq<char>, line: nat, width: nat)
    requires
        line <= u32::MAX,
        !location_fits(file, line, width),
        file_name_fits(file, line, width),
    ensures
        exists|d: Seq<char>|
            #![trigger pad_left(d + seq!['/'] + file_with_line(file, line), width)]
            {
                let dir = directory(file);
                let fwl = file_with_line(file, line);
                &&& location_in_column(file, line, width) == pad_left(d + seq!['/'] + fwl, width)
                &&& d.len() <= dir.len()
                &&& d == dir.skip(dir.len() - d.len())
                &&& byte_len(d) + 1 + byte_len(fwl) <= width
                &&& (d.len() == dir.len() || dir[dir.len() - d.len() - 1] == '/' || forall|
                    i: int,
                | 0 <= i < d.len() ==> d[i] != '/')
                &&& forall|k: int|
                    #![trigger dir.skip(k)]
                    0 <= k <= dir.len() && (k == 0 || dir[k - 1] == '/') && byte_len(dir.skip(k))
                        + 1 + byte_len(fwl) <= width ==> dir.len() - k <= d.len()
            },
{
    let path = location_path(file);
    lemma_last_index_of(path, '/');
    let i0 = last_index_of(path, '/').unwrap();
    let dir = directory(file);
    let name = path.skip(i0 + 1);
    let fwl = file_with_line(file, line);
    assert(fwl == with_line(name, line));
    assert(with_line(path, line) =~= (dir + seq!['/']) + fwl);
    lemma_byte_len_concat(dir + seq!['/'], fwl);
    lemma_byte_len_push(dir, '/');
    assert(dir.push('/') =~= dir + seq!['/']);
    assert(byte_len(dir) + 1 + byte_len(fwl) > width);
    let budget = (width - (byte_len(fwl) + 1)) as nat;
    assert(byte_len(dir) > budget);
    let tail = suffix_within(dir, budget);
    lemma_suffix_within(dir, budget);
    let k1 = choose|k: int| 0 <= k <= dir.len() && tail == dir.skip(k);
    let t0 = dir.len() - tail.len();
    assert(k1 == t0);
    if t0 == 0 {
        assert(dir.skip(0) =~= dir);
    }
    assert(t0 > 0);
    assert forall|k: int|
        #![trigger dir.skip(k)]
        0 <= k <= dir.len() && (k == 0 || dir[k - 1] == '/') && byte_len(dir.skip(k)) + 1
            + byte_len(fwl) <= width implies k >= t0 by {
        lemma_suffix_within_longest(dir, budget, k);
    }
    let kept = whole_components(dir, tail);
    assert(location_in_column(file, line, width) == pad_left(kept + seq!['/'] + fwl, width));
    lemma_first_index_of(tail, '/');
    if tail.len() < dir.len() && dir[dir.len() - tail.len() - 1] == '/' {
        assert(kept == tail);
    } else {
        assert(dir[t0 - 1] != '/');
        match first_index_of(tail, '/') {
            Some(i) => {
                assert(kept == tail.skip(i + 1));
                assert(kept =~= dir.skip(t0 + i + 1));
                assert(dir[dir.len() - kept.len() - 1] == tail[i]);
                assert(tail =~= tail.take(i + 1) + kept);
                lemma_byte_len_concat(tail.take(i + 1), kept);
                assert forall|k: int|
                    #![trigger dir.skip(k)]
                    0 <= k <= dir.len() && (k == 0 || dir[k - 1] == '/') && byte_len(dir.skip(k))
                        + 1 + byte_len(fwl) <= width implies dir.len() - k <= kept.len() by {
                    assert(k >= t0);
                    if k > t0 {
                        assert(dir[k - 1] == tail[k - 1 - t0]);
                    }
                }
            },
            None => {
                assert(kept == tail);
                assert forall|k: int|
                    #![trigger dir.skip(k)]
                    0 <= k <= dir.len() && (k == 0 || dir[k - 1] == '/') && byte_len(dir.skip(k))
                        + 1 + byte_len(fwl) <= width implies dir.len() - k <= kept.len() by {
                    assert(k >= t0);
                }
            },
        }
    }
}

/// When neither the location nor the file name with its line fits, the location is `…`
/// followed by a tail of `path:line` that fits the remaining `width - 1` bytes, and no longer
/// tail of `path:line` fits them.
pub proof fn lemma_location_cut_tail(file: Seq<char>, line: nat, width: nat)
    requires
        line <= u32::MAX,
        !location_fits(file, line, width),
        !file_name_fits(file, line, width),
        width >= 1,
    ensures
        exists|k: int|
            #![trigger with_line(location_path(file), line).skip(k)]
            {
                let full = with_line(location_path(file), line);
                &&& 0 <= k <= full.len()
                &&& location_in_column(file, line, width) == seq!['…'] + full.skip(k)
                &&& byte_len(full.skip(k)) + 1 <= width
                &&& forall|m: int|
                    #![trigger full.skip(m)]
                    0 <= m <= full.len() && byte_len(full.skip(m)) + 1 <= width ==> k <= m
            },
{
    let full = with_line(location_path(file), line);
    let budget = (width - 1) as nat;
    lemma_suffix_within(full, budget);
    let k = choose|k: int| 0 <= k <= full.len() && suffix_within(full, budget) == full.skip(k);
    assert forall|m: int|
        #![trigger full.skip(m)]
        0 <= m <= full.len() && byte_len(full.skip(m)) + 1 <= width implies k <= m by {
        lemma_suffix_within_longest(full, budget, m);
    }
    assert(location_in_column(file, line, width) == seq!['…'] + full.skip(k));
}

} // verus!
