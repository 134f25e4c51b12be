//! Character-level building blocks shared by the parsers and the text layout code:
//! whitespace classification, UTF-8 lengths, display widths and string assembly.
use unicode_width::UnicodeWidthChar;
use vstd::prelude::*;

verus! {

broadcast use vstd::string::group_string_axioms;

/// Unicode `White_Space`: the characters for which `char::is_whitespace` holds.
pub open spec fn is_ws(c: char) -> bool {
    let v = c as u32;
    ||| 0x09 <= v <= 0x0D
    ||| v == 0x20
    ||| v == 0x85
    ||| v == 0xA0
    ||| v == 0x1680
    ||| 0x2000 <= v <= 0x200A
    ||| v == 0x2028
    ||| v == 0x2029
    ||| v == 0x202F
    ||| v == 0x205F
    ||| v == 0x3000
}

/// Whether `c` is whitespace in the sense of Unicode's `White_Space` property.
pub fn is_whitespace(c: char) -> (res: bool)
    ensures
        res == is_ws(c),
{
    let v = c as u32;
    (0x09 <= v && v <= 0x0D) || v == 0x20 || v == 0x85 || v == 0xA0 || v == 0x1680 || (0x2000
        <= v && v <= 0x200A) || v == 0x2028 || v == 0x2029 || v == 0x202F || v == 0x205F || v
        == 0x3000
}

/// Number of bytes of the UTF-8 encoding of `c`.
pub open spec fn utf8_len(c: char) -> nat {
    let v = c as u32;
    if v < 0x80 {
        1
    } else if v < 0x800 {
        2
    } else if v < 0x10000 {
        3
    } else {
        4
    }
}

/// Number of bytes of the UTF-8 encoding of `c`.
pub fn char_utf8_len(c: char) -> (res: usize)
    ensures
        res == utf8_len(c),
        1 <= res <= 4,
{
    let v = c as u32;
    if v < 0x80 {
        1
    } else if v < 0x800 {
        2
    } else if v < 0x10000 {
        3
    } else {
        4
    }
}

/// Length in bytes of the UTF-8 encoding of the character sequence `s`.
pub open spec fn byte_len(s: Seq<char>) -> nat
    decreases s.len(),
{
    if s.len() == 0 {
        0
    } else {
        byte_len(s.drop_last()) + utf8_len(s.last())
    }
}

/// Byte offset, in the UTF-8 encoding of `s`, of the character at index `k`.
pub open spec fn byte_offset(s: Seq<char>, k: int) -> nat {
    byte_len(s.take(k))
}

pub proof fn lemma_byte_offset_step(s: Seq<char>, k: int)
    requires
        0 <= k < s.len(),
    ensures
        byte_offset(s, k + 1) == byte_offset(s, k) + utf8_len(s[k]),
{
    assert(s.take(k + 1).drop_last() =~= s.take(k));
}

pub proof fn lemma_byte_offset_bounds(s: Seq<char>, k: int)
    requires
        0 <= k <= s.len(),
    ensures
        k <= byte_offset(s, k) <= 4 * k,
    decreases k,
{
    if k > 0 {
        lemma_byte_offset_bounds(s, k - 1);
        lemma_byte_offset_step(s, k - 1);
    }
}

/// Byte offsets strictly increase with the character index.
pub proof fn lemma_byte_offset_monotone(s: Seq<char>, j: int, k: int)
    requires
        0 <= j <= k <= s.len(),
    ensures
        byte_offset(s, j) + (k - j) <= byte_offset(s, k),
    decreases k - j,
{
    if j < k {
        lemma_byte_offset_monotone(s, j, k - 1);
        lemma_byte_offset_step(s, k - 1);
    }
}

pub proof fn lemma_byte_len_is_offset(s: Seq<char>)
    ensures
        byte_len(s) == byte_offset(s, s.len() as int),
{
    assert(s.take(s.len() as int) =~= s);
}

/// `b` is the byte offset at which some character of `s` starts (or the end of `s`).
pub open spec fn is_char_start(s: Seq<char>, b: int) -> bool {
    exists|k: int| 0 <= k <= s.len() && byte_offset(s, k) == b
}

/// Index of the character of `s` whose UTF-8 encoding holds byte `b`; the number of
/// characters when `b` is at or past the end.
pub open spec fn char_index_at_byte(s: Seq<char>, b: int) -> int {
    if b >= byte_len(s) || b < 0 {
        s.len() as int
    } else {
        choose|k: int| 0 <= k < s.len() && #[trigger] byte_offset(s, k) <= b < byte_offset(s, k + 1)
    }
}

/// The character holding a byte is unique.
pub proof fn lemma_char_index_unique(s: Seq<char>, b: int, k: int)
    requires
        0 <= k < s.len(),
        byte_offset(s, k) <= b < byte_offset(s, k + 1),
    ensures
        char_index_at_byte(s, b) == k,
{
    lemma_byte_len_is_offset(s);
    lemma_byte_offset_monotone(s, k + 1, s.len() as int);
    let w = choose|q: int| 0 <= q < s.len() && #[trigger] byte_offset(s, q) <= b < byte_offset(s, q + 1);
    assert(0 <= w < s.len() && byte_offset(s, w) <= b < byte_offset(s, w + 1));
    if w < k {
        lemma_byte_offset_monotone(s, w + 1, k);
    } else if w > k {
        lemma_byte_offset_monotone(s, k + 1, w);
    }
}

/// At the start of character `k`, the character index is `k`.
pub proof fn lemma_char_index_at_start(s: Seq<char>, k: int)
    requires
        0 <= k <= s.len(),
    ensures
        char_index_at_byte(s, byte_offset(s, k) as int) == k,
{
    lemma_byte_len_is_offset(s);
    if k < s.len() {
        lemma_byte_offset_step(s, k);
        lemma_char_index_unique(s, byte_offset(s, k) as int, k);
    } else {
        assert(byte_offset(s, k) == byte_len(s));
    }
}

/// Character index of the character holding byte `byte_pos` of the UTF-8 encoding of
/// `chars`; `chars.len()` when `byte_pos` is at or past the end.
pub fn char_index_of_byte(chars: &Vec<char>, byte_pos: usize) -> (res: usize)
    ensures
        res == char_index_at_byte(chars@, byte_pos as int),
        res <= chars@.len(),
{
    let n = chars.len();
    let mut k: usize = 0;
    let mut off: usize = 0;
    proof {
        assert(chars@.take(0) =~= Seq::<char>::empty());
    }
    while k < n
        invariant
            n == chars@.len(),
            k <= n,
            off == byte_offset(chars@, k as int),
            off <= byte_pos,
        decreases n - k,
    {
        let len = char_utf8_len(chars[k]);
        proof {
            lemma_byte_offset_step(chars@, k as int);
        }
        if byte_pos - off < len {
            proof {
                lemma_char_index_unique(chars@, byte_pos as int, k as int);
            }
            return k;
        }
        off = off + len;
        k = k + 1;
    }
    proof {
        lemma_byte_len_is_offset(chars@);
    }
    n
}

/// Walks from character `k` to the character holding byte `b`.
proof fn lemma_find_char(s: Seq<char>, b: int, k: int)
    requires
        0 <= k <= s.len(),
        byte_offset(s, k) <= b < byte_len(s),
    ensures
        exists|q: int| 0 <= q < s.len() && #[trigger] byte_offset(s, q) <= b < byte_offset(s, q + 1),
    decreases s.len() - k,
{
    lemma_byte_len_is_offset(s);
    if k == s.len() {
        assert(false);
    } else if b < byte_offset(s, k + 1) {
        assert(byte_offset(s, k) <= b < byte_offset(s, k + 1));
    } else {
        lemma_find_char(s, b, k + 1);
    }
}

/// The character index of a byte is a character of `s`, or the end for a byte past it;
/// inside the text it is the character whose encoding holds the byte.
pub proof fn lemma_char_index_at_byte(s: Seq<char>, b: int)
    ensures
        0 <= char_index_at_byte(s, b) <= s.len(),
        0 <= b < byte_len(s) ==> {
            let k = char_index_at_byte(s, b);
            &&& k < s.len()
            &&& byte_offset(s, k) <= b < byte_offset(s, k + 1)
        },
        b >= byte_len(s) ==> char_index_at_byte(s, b) == s.len(),
{
    if 0 <= b < byte_len(s) {
        assert(s.take(0) =~= Seq::<char>::empty());
        lemma_find_char(s, b, 0);
    }
}

/// Byte offsets never pass the end of the text.
pub proof fn lemma_byte_offset_at_most_len(s: Seq<char>, k: int)
    requires
        0 <= k <= s.len(),
    ensures
        byte_offset(s, k) <= byte_len(s),
{
    lemma_byte_len_is_offset(s);
    lemma_byte_offset_monotone(s, k, s.len() as int);
}

/// After inserting `c` as character `k`, the character after it starts `c`'s UTF-8
/// length further on.
pub proof fn lemma_byte_offset_after_insert(s: Seq<char>, k: int, c: char)
    requires
        0 <= k <= s.len(),
    ensures
        byte_offset(s.insert(k, c), k + 1) == byte_offset(s, k) + utf8_len(c),
        byte_offset(s.insert(k, c), k) == byte_offset(s, k),
{
    assert(s.insert(k, c).take(k + 1) =~= s.take(k).push(c));
    assert(s.take(k).push(c).drop_last() =~= s.take(k));
    assert(s.insert(k, c).take(k) =~= s.take(k));
}

/// Removing character `k` leaves the offset of its position as it was.
pub proof fn lemma_byte_offset_after_remove(s: Seq<char>, k: int)
    requires
        0 <= k < s.len(),
    ensures
        byte_offset(s.remove(k), k) == byte_offset(s, k),
{
    assert(s.remove(k).take(k) =~= s.take(k));
}

/// The start of the character holding byte `b`; the end of the text when `b` is at or
/// past it.
pub fn char_start_of_byte(chars: &Vec<char>, b: usize) -> (res: usize)
    ensures
        res == byte_offset(chars@, char_index_at_byte(chars@, b as int)),
        res <= b,
{
    let n = chars.len();
    let mut k: usize = 0;
    let mut off: usize = 0;
    proof {
        assert(chars@.take(0) =~= Seq::<char>::empty());
    }
    while k < n
        invariant
            n == chars@.len(),
            k <= n,
            off == byte_offset(chars@, k as int),
            off <= b,
        decreases n - k,
    {
        let len = char_utf8_len(chars[k]);
        proof {
            lemma_byte_offset_step(chars@, k as int);
        }
        if b - off < len {
            proof {
                lemma_char_index_unique(chars@, b as int, k as int);
            }
            return off;
        }
        off = off + len;
        k = k + 1;
    }
    proof {
        lemma_byte_len_is_offset(chars@);
    }
    off
}

/// The end of the character holding byte `b`.
pub fn char_end_of_byte(chars: &Vec<char>, b: usize) -> (res: usize)
    requires
        b < byte_len(chars@),
        byte_len(chars@) <= usize::MAX,
    ensures
        char_index_at_byte(chars@, b as int) < chars@.len(),
        res == byte_offset(chars@, char_index_at_byte(chars@, b as int) + 1),
        b < res <= byte_len(chars@),
{
    let n = chars.len();
    let mut k: usize = 0;
    let mut off: usize = 0;
    proof {
        assert(chars@.take(0) =~= Seq::<char>::empty());
    }
    while k < n
        invariant
            n == chars@.len(),
            k <= n,
            off == byte_offset(chars@, k as int),
            off <= b,
            b < byte_len(chars@) <= usize::MAX,
        decreases n - k,
    {
        let len = char_utf8_len(chars[k]);
        proof {
            lemma_byte_offset_step(chars@, k as int);
            lemma_byte_offset_at_most_len(chars@, k + 1);
        }
        if b - off < len {
            proof {
                lemma_char_index_unique(chars@, b as int, k as int);
            }
            return off + len;
        }
        off = off + len;
        k = k + 1;
    }
    proof {
        lemma_byte_len_is_offset(chars@);
    }
    off
}

/// Whether some character of `chars` starts at byte `b` (or `b` is the end).
pub fn char_starts_at(chars: &Vec<char>, b: usize) -> (res: bool)
    ensures
        res == is_char_start(chars@, b as int),
{
    let n = chars.len();
    let mut k: usize = 0;
    let mut off: usize = 0;
    proof {
        assert(chars@.take(0) =~= Seq::<char>::empty());
    }
    while k < n
        invariant
            n == chars@.len(),
            k <= n,
            off == byte_offset(chars@, k as int),
            off <= b,
            forall|j: int| 0 <= j < k ==> byte_offset(chars@, j) < b,
        decreases n - k,
    {
        if off == b {
            return true;
        }
        let len = char_utf8_len(chars[k]);
        proof {
            lemma_byte_offset_step(chars@, k as int);
        }
        if b - off < len {
            proof {
                assert forall|j: int| 0 <= j <= chars@.len() implies byte_offset(chars@, j) != b by {
                    if j > k {
                        lemma_byte_offset_monotone(chars@, k + 1, j);
                    }
                }
            }
            return false;
        }
        off = off + len;
        k = k + 1;
    }
    if off == b {
        return true;
    }
    proof {
        assert forall|j: int| 0 <= j <= chars@.len() implies byte_offset(chars@, j) != b by {
            if j == n {
            } else {
                assert(byte_offset(chars@, j) < b);
            }
        }
    }
    false
}

/// Whether the UTF-8 encoding of `chars` is at most `limit` bytes long.
pub fn byte_len_at_most(chars: &Vec<char>, limit: usize) -> (res: bool)
    ensures
        res == (byte_len(chars@) <= limit),
{
    let n = chars.len();
    let mut k: usize = 0;
    let mut off: usize = 0;
    proof {
        assert(chars@.take(0) =~= Seq::<char>::empty());
    }
    while k < n
        invariant
            n == chars@.len(),
            k <= n,
            off == byte_offset(chars@, k as int),
            off <= limit,
        decreases n - k,
    {
        let len = char_utf8_len(chars[k]);
        proof {
            lemma_byte_offset_step(chars@, k as int);
        }
        if limit - off < len {
            proof {
                lemma_byte_len_is_offset(chars@);
                lemma_byte_offset_monotone(chars@, k as int + 1, n as int);
            }
            return false;
        }
        off = off + len;
        k = k + 1;
    }
    proof {
        lemma_byte_len_is_offset(chars@);
    }
    true
}

/// The UTF-8 length of `chars` when it is at most `cap` bytes.
pub fn byte_len_upto(chars: &Vec<char>, cap: usize) -> (res: Option<usize>)
    ensures
        res matches Some(l) ==> l == byte_len(chars@) && l <= cap,
        res is None ==> byte_len(chars@) > cap,
{
    let n = chars.len();
    let mut k: usize = 0;
    let mut off: usize = 0;
    proof {
        assert(chars@.take(0) =~= Seq::<char>::empty());
    }
    while k < n
        invariant
            n == chars@.len(),
            k <= n,
            off == byte_offset(chars@, k as int),
            off <= cap,
        decreases n - k,
    {
        let len = char_utf8_len(chars[k]);
        proof {
            lemma_byte_offset_step(chars@, k as int);
        }
        if cap - off < len {
            proof {
                lemma_byte_len_is_offset(chars@);
                lemma_byte_offset_monotone(chars@, k as int + 1, n as int);
            }
            return None;
        }
        off = off + len;
        k = k + 1;
    }
    proof {
        lemma_byte_len_is_offset(chars@);
    }
    Some(off)
}

/// `s` with `c` inserted at byte `b` (`String::insert`).
pub fn insert_at_byte(s: &String, b: usize, c: char) -> (res: String)
    requires
        is_char_start(s@, b as int),
    ensures
        res@ == s@.insert(char_index_at_byte(s@, b as int), c),
        char_index_at_byte(s@, b as int) <= s@.len(),
{
    let chars = chars_of(s.as_str());
    let k = char_index_of_byte(&chars, b);
    let mut out: Vec<char> = Vec::new();
    let n = chars.len();
    let mut i: usize = 0;
    while i < n
        invariant
            n == chars@.len(),
            k <= n,
            i <= n,
            out@ == (if i <= k { chars@.take(i as int) } else { chars@.take(k as int).push(c) + chars@.subrange(k as int, i as int) }),
        decreases n - i,
    {
        if i == k {
            out.push(c);
            proof {
                assert(out@ =~= chars@.take(k as int).push(c) + chars@.subrange(k as int, i as int));
            }
        }
        out.push(chars[i]);
        i = i + 1;
        proof {
            if i <= k {
                assert(out@ =~= chars@.take(i as int));
            } else {
                assert(out@ =~= chars@.take(k as int).push(c) + chars@.subrange(k as int, i as int));
            }
        }
    }
    if k == n {
        out.push(c);
    }
    proof {
        assert(out@ =~= s@.insert(k as int, c));
    }
    string_from_chars(&out)
}

/// `s` without the character that starts at byte `b` (`String::remove`).
pub fn remove_at_byte(s: &String, b: usize) -> (res: String)
    requires
        is_char_start(s@, b as int),
        b < byte_len(s@),
    ensures
        char_index_at_byte(s@, b as int) < s@.len(),
        res@ == s@.remove(char_index_at_byte(s@, b as int)),
{
    let chars = chars_of(s.as_str());
    let k = char_index_of_byte(&chars, b);
    proof {
        let w = choose|w: int| 0 <= w <= s@.len() && byte_offset(s@, w) == b;
        lemma_char_index_at_start(s@, w);
        lemma_byte_len_is_offset(s@);
    }
    let mut out: Vec<char> = Vec::new();
    let n = chars.len();
    let mut i: usize = 0;
    while i < n
        invariant
            n == chars@.len(),
            k < n,
            i <= n,
            out@ == (if i <= k { chars@.take(i as int) } else { chars@.take(k as int) + chars@.subrange(k + 1, i as int) }),
        decreases n - i,
    {
        if i != k {
            out.push(chars[i]);
        }
        i = i + 1;
        proof {
            if i <= k {
                assert(out@ =~= chars@.take(i as int));
            } else {
                assert(out@ =~= chars@.take(k as int) + chars@.subrange(k + 1, i as int));
            }
        }
    }
    proof {
        assert(out@ =~= s@.remove(k as int));
    }
    string_from_chars(&out)
}

pub proof fn lemma_byte_len_single(c: char)
    ensures
        byte_len(seq![c]) == utf8_len(c),
{
    assert(seq![c].drop_last() =~= Seq::<char>::empty());
    assert(byte_len(Seq::<char>::empty()) == 0);
    assert(seq![c].last() == c);
}

pub proof fn lemma_byte_len_concat(a: Seq<char>, b: Seq<char>)
    ensures
        byte_len(a + b) == byte_len(a) + byte_len(b),
    decreases b.len(),
{
    if b.len() == 0 {
        assert(a + b =~= a);
    } else {
        lemma_byte_len_concat(a, b.drop_last());
        assert((a + b).drop_last() =~= a + b.drop_last());
    }
}

/// Inserting a character adds its UTF-8 length to the byte length.
pub proof fn lemma_byte_len_insert(s: Seq<char>, k: int, c: char)
    requires
        0 <= k <= s.len(),
    ensures
        byte_len(s.insert(k, c)) == byte_len(s) + utf8_len(c),
{
    assert(s.insert(k, c) =~= s.take(k) + (seq![c] + s.skip(k)));
    assert(s =~= s.take(k) + s.skip(k));
    lemma_byte_len_concat(s.take(k), seq![c] + s.skip(k));
    lemma_byte_len_concat(seq![c], s.skip(k));
    lemma_byte_len_concat(s.take(k), s.skip(k));
    assert(seq![c].drop_last() =~= Seq::<char>::empty());
    lemma_byte_len_single(c);
    assert(byte_len(s.insert(k, c)) == byte_len(s.take(k) + (seq![c] + s.skip(k))));
    assert(byte_len(s) == byte_len(s.take(k) + s.skip(k)));
}

/// Removing character `k` takes its UTF-8 length off the byte length, which is at least
/// the offset of the character plus its length.
pub proof fn lemma_byte_len_remove(s: Seq<char>, k: int)
    requires
        0 <= k < s.len(),
    ensures
        byte_len(s.remove(k)) + utf8_len(s[k]) == byte_len(s),
        byte_offset(s, k) + utf8_len(s[k]) <= byte_len(s),
{
    assert(s.remove(k) =~= s.take(k) + s.skip(k + 1));
    assert(s =~= s.take(k) + (seq![s[k]] + s.skip(k + 1)));
    lemma_byte_len_concat(s.take(k), s.skip(k + 1));
    lemma_byte_len_concat(s.take(k), seq![s[k]] + s.skip(k + 1));
    lemma_byte_len_concat(seq![s[k]], s.skip(k + 1));
    assert(seq![s[k]].drop_last() =~= Seq::<char>::empty());
    lemma_byte_len_single(s[k]);
    assert(byte_len(s.remove(k)) == byte_len(s.take(k) + s.skip(k + 1)));
    assert(byte_len(s) == byte_len(s.take(k) + (seq![s[k]] + s.skip(k + 1))));
    assert(s.take(k + 1) =~= s.take(k) + seq![s[k]]);
    lemma_byte_len_concat(s.take(k), seq![s[k]]);
    lemma_byte_len_concat(s.take(k + 1), s.skip(k + 1));
    assert(s =~= s.take(k + 1) + s.skip(k + 1));
    lemma_byte_offset_step(s, k);
}

/// Byte offsets `offs[k] == byte_offset(s, k)` for every `k` in `0..=s.len()`.
pub fn byte_offsets(s: &Vec<char>) -> (offs: Vec<usize>)
    requires
        s@.len() <= usize::MAX / 4,
    ensures
        offs@.len() == s@.len() + 1,
        forall|k: int| 0 <= k <= s@.len() ==> offs@[k] == byte_offset(s@, k),
{
    let mut offs: Vec<usize> = Vec::new();
    let mut total: usize = 0;
    offs.push(0);
    proof {
        assert(s@.take(0) =~= Seq::<char>::empty());
    }
    let n = s.len();
    let mut k: usize = 0;
    while k < n
        invariant
            n == s@.len(),
            n <= usize::MAX / 4,
            k <= n,
            offs@.len() == k + 1,
            total == byte_offset(s@, k as int),
            forall|i: int| 0 <= i <= k ==> offs@[i] == byte_offset(s@, i),
        decreases n - k,
    {
        proof {
            lemma_byte_offset_step(s@, k as int);
            lemma_byte_offset_bounds(s@, k as int + 1);
        }
        total = total + char_utf8_len(s[k]);
        k = k + 1;
        offs.push(total);
    }
    offs
}

/// The characters of `s`, in order.
pub fn chars_of(s: &str) -> (res: Vec<char>)
    ensures
        res@ == s@,
{
    let mut res: Vec<char> = Vec::new();
    for c in it: s.chars()
        invariant
            res@ == it.seq().take(it.index() as int),
    {
        res.push(c);
    }
    res
}

/// Calls `String::push`; the contract claims what its documentation says: afterwards
/// `s` holds its characters followed by `c`.
#[verifier::external_body]
fn push_char(s: &mut String, c: char)
    ensures
        final(s)@ == old(s)@.push(c),
{
    s.push(c);
}

/// A `String` holding exactly the characters of `v[from..to]`.
pub fn string_from_range(v: &Vec<char>, from: usize, to: usize) -> (res: String)
    requires
        from <= to <= v@.len(),
    ensures
        res@ == v@.subrange(from as int, to as int),
{
    let mut res = String::new();
    let mut k = from;
    while k < to
        invariant
            from <= k <= to <= v@.len(),
            res@ == v@.subrange(from as int, k as int),
        decreases to - k,
    {
        push_char(&mut res, v[k]);
        k = k + 1;
        proof {
            assert(res@ =~= v@.subrange(from as int, k as int));
        }
    }
    res
}

/// A `String` holding exactly the characters of `v`.
pub fn string_from_chars(v: &Vec<char>) -> (res: String)
    ensures
        res@ == v@,
{
    let res = string_from_range(v, 0, v.len());
    proof {
        assert(v@.subrange(0, v@.len() as int) =~= v@);
    }
    res
}

/// Appends the characters of `t` to `v`.
pub fn append_str(v: &mut Vec<char>, t: &str)
    ensures
        final(v)@ == old(v)@ + t@,
{
    let cs = chars_of(t);
    let n = cs.len();
    let mut k: usize = 0;
    while k < n
        invariant
            n == cs@.len(),
            cs@ == t@,
            k <= n,
            v@ == old(v)@ + cs@.take(k as int),
        decreases n - k,
    {
        v.push(cs[k]);
        k = k + 1;
        proof {
            assert(v@ =~= old(v)@ + cs@.take(k as int));
        }
    }
    proof {
        assert(cs@.take(n as int) =~= cs@);
    }
}

/// `a` followed by `b`.
pub fn concat_strs(a: &str, b: &str) -> (res: String)
    ensures
        res@ == a@ + b@,
{
    let mut v: Vec<char> = Vec::new();
    append_str(&mut v, a);
    append_str(&mut v, b);
    proof {
        assert(v@ =~= a@ + b@);
    }
    string_from_chars(&v)
}

/// Appends the characters of `t[from..to]` to `v`.
pub fn append_range(v: &mut Vec<char>, t: &Vec<char>, from: usize, to: usize)
    requires
        from <= to <= t@.len(),
    ensures
        final(v)@ == old(v)@ + t@.subrange(from as int, to as int),
{
    let mut k = from;
    while k < to
        invariant
            from <= k <= to <= t@.len(),
            v@ == old(v)@ + t@.subrange(from as int, k as int),
        decreases to - k,
    {
        v.push(t[k]);
        k = k + 1;
        proof {
            assert(v@ =~= old(v)@ + t@.subrange(from as int, k as int));
        }
    }
}

/// What `unicode_width`'s `UnicodeWidthChar::width` returns for a character.
pub uninterp spec fn unicode_char_width(c: char) -> Option<usize>;

/// Calls `unicode_width::UnicodeWidthChar::width`. Its result is named
/// `unicode_char_width`; beyond that the contract states what the crate's
/// `single_char_width` shows plainly: printable ASCII is one column, the C0 and C1
/// control characters have no width, and every other character is at most three
/// columns wide.
#[verifier::external_body]
fn char_width(c: char) -> (res: Option<usize>)
    ensures
        res == unicode_char_width(c),
        0x20 <= c as u32 <= 0x7E ==> res == Some(1usize),
        (c as u32) < 0x20 || (0x7F <= c as u32 && (c as u32) < 0xA0) ==> res is None,
        res matches Some(w) ==> w <= 3,
{
    c.width()
}

/// Display width of a character as the layout code counts it: one column for every
/// character below U+00A0 (printable ASCII is one column wide, and control characters,
/// which have no width, count as one); above, the width `unicode_width` gives, or one
/// column where it gives none.
pub open spec fn display_width(c: char) -> nat {
    if (c as u32) < 0xA0 {
        1
    } else {
        match unicode_char_width(c) {
            Some(w) => w as nat,
            None => 1,
        }
    }
}

/// Display width of a character, with control characters counted as one column.
pub fn char_display_width(c: char) -> (res: usize)
    ensures
        res == display_width(c),
        res <= 3,
{
    if (c as u32) < 0xA0 {
        return 1;
    }
    match char_width(c) {
        Some(w) => w,
        None => 1,
    }
}

/// Sum of the display widths of the characters of `s`.
pub open spec fn width_sum(s: Seq<char>) -> nat
    decreases s.len(),
{
    if s.len() == 0 {
        0
    } else {
        width_sum(s.drop_last()) + display_width(s.last())
    }
}

pub proof fn lemma_width_sum_push(s: Seq<char>, c: char)
    ensures
        width_sum(s.push(c)) == width_sum(s) + display_width(c),
{
    assert(s.push(c).drop_last() =~= s);
}

pub proof fn lemma_width_sum_concat(a: Seq<char>, b: Seq<char>)
    ensures
        width_sum(a + b) == width_sum(a) + width_sum(b),
    decreases b.len(),
{
    if b.len() == 0 {
        assert(a + b =~= a);
    } else {
        lemma_width_sum_concat(a, b.drop_last());
        assert((a + b).drop_last() =~= a + b.drop_last());
    }
}

pub proof fn lemma_width_sum_bound(s: Seq<char>)
    requires
        forall|i: int| 0 <= i < s.len() ==> display_width(#[trigger] s[i]) <= 3,
    ensures
        width_sum(s) <= 3 * s.len(),
    decreases s.len(),
{
    if s.len() > 0 {
        lemma_width_sum_bound(s.drop_last());
    }
}

/// `c` with one trailing carriage return removed.
pub open spec fn strip_cr(c: Seq<char>) -> Seq<char> {
    if c.len() > 0 && c.last() == '\r' {
        c.drop_last()
    } else {
        c
    }
}

/// Lines finished so far in `s`, and the unfinished last line.
pub open spec fn line_split(s: Seq<char>) -> (Seq<Seq<char>>, Seq<char>)
    decreases s.len(),
{
    if s.len() == 0 {
        (seq![], seq![])
    } else {
        let (done, cur) = line_split(s.drop_last());
        if s.last() == '\n' {
            (done.push(strip_cr(cur)), seq![])
        } else {
            (done, cur.push(s.last()))
        }
    }
}

/// The lines of `s` as `str::lines` gives them: split at `'\n'`, a `'\r'` before the
/// `'\n'` dropped, and no empty line after a final line ending.
pub open spec fn text_lines(s: Seq<char>) -> Seq<Seq<char>> {
    let (done, cur) = line_split(s);
    if cur.len() > 0 {
        done.push(cur)
    } else {
        done
    }
}


/// The characters of `v[from..to]`.
pub fn chars_range(v: &Vec<char>, from: usize, to: usize) -> (res: Vec<char>)
    requires
        from <= to <= v@.len(),
    ensures
        res@ == v@.subrange(from as int, to as int),
{
    let mut res: Vec<char> = Vec::new();
    append_range(&mut res, v, from, to);
    proof {
        assert(res@ =~= v@.subrange(from as int, to as int));
    }
    res
}

/// The lines of the text `chars`, split as `str::lines` splits them.
pub fn split_lines(chars: &Vec<char>) -> (res: Vec<Vec<char>>)
    ensures
        res@.len() == text_lines(chars@).len(),
        forall|k: int| 0 <= k < res@.len() ==> #[trigger] res@[k]@ == text_lines(chars@)[k],
{
    let ghost t = chars@;
    let n = chars.len();
    let mut res: Vec<Vec<char>> = Vec::new();
    let mut line_start: usize = 0;
    let mut i: usize = 0;
    proof {
        assert(t.take(0) =~= Seq::<char>::empty());
    }
    while i < n
        invariant
            chars@ == t,
            n == t.len(),
            line_start <= i <= n,
            line_split(t.take(i as int)).1 == t.subrange(line_start as int, i as int),
            res@.len() == line_split(t.take(i as int)).0.len(),
            forall|k: int|
                0 <= k < res@.len() ==> #[trigger] res@[k]@ == line_split(t.take(i as int)).0[k],
        decreases n - i,
    {
        let ghost prev = line_split(t.take(i as int));
        proof {
            assert(t.take(i + 1).drop_last() =~= t.take(i as int));
        }
        if chars[i] == '\n' {
            let end = if i > line_start && chars[i - 1] == '\r' {
                i - 1
            } else {
                i
            };
            proof {
                let cur = t.subrange(line_start as int, i as int);
                if i > line_start && chars[i - 1] == '\r' {
                    assert(cur.drop_last() =~= t.subrange(line_start as int, end as int));
                } else {
                    assert(cur =~= t.subrange(line_start as int, end as int));
                }
                assert(line_split(t.take(i + 1)).0 == prev.0.push(
                    t.subrange(line_start as int, end as int),
                ));
            }
            let line = chars_range(chars, line_start, end);
            res.push(line);
            i = i + 1;
            line_start = i;
            proof {
                assert(t.subrange(line_start as int, i as int) =~= Seq::<char>::empty());
            }
        } else {
            i = i + 1;
            proof {
                assert(t.subrange(line_start as int, i as int) =~= t.subrange(
                    line_start as int,
                    i - 1,
                ).push(t[i - 1]));
            }
        }
    }
    proof {
        assert(t.take(n as int) =~= t);
    }
    if line_start < n {
        let line = chars_range(chars, line_start, n);
        res.push(line);
    }
    res
}

/// The lines of `s`, each as its characters, split as `str::lines` splits them.
pub fn lines_of(s: &str) -> (res: Vec<Vec<char>>)
    ensures
        res@.len() == text_lines(s@).len(),
        forall|k: int| 0 <= k < res@.len() ==> #[trigger] res@[k]@ == text_lines(s@)[k],
{
    let chars = chars_of(s);
    split_lines(&chars)
}

/// `p` is a prefix of `s`.
pub open spec fn has_prefix(s: Seq<char>, p: Seq<char>) -> bool {
    p.len() <= s.len() && s.take(p.len() as int) == p
}

/// Whether `s` starts with `p`.
pub fn starts_with(s: &Vec<char>, p: &str) -> (res: bool)
    ensures
        res == has_prefix(s@, p@),
{
    let pc = chars_of(p);
    let m = pc.len();
    if m > s.len() {
        return false;
    }
    let mut k: usize = 0;
    while k < m
        invariant
            k <= m <= s@.len(),
            m == pc@.len(),
            pc@ == p@,
            forall|i: int| 0 <= i < k ==> s@[i] == pc@[i],
        decreases m - k,
    {
        if s[k] != pc[k] {
            proof {
                assert(s@.take(m as int)[k as int] != pc@[k as int]);
            }
            return false;
        }
        k = k + 1;
    }
    proof {
        assert(s@.take(m as int) =~= pc@);
    }
    true
}

/// Index of the first character of `s` at or after `i` that is not whitespace, or
/// `s.len()`.
pub open spec fn skip_ws(s: Seq<char>, i: int) -> int
    decreases s.len() - i,
{
    if 0 <= i < s.len() && is_ws(s[i]) {
        skip_ws(s, i + 1)
    } else {
        i
    }
}

/// One past the last character of `s[i..j]` that is not whitespace, or `i` if there
/// is none.
pub open spec fn back_ws(s: Seq<char>, i: int, j: int) -> int
    decreases j - i,
{
    if i < j && is_ws(s[j - 1]) {
        back_ws(s, i, j - 1)
    } else {
        j
    }
}

/// `s` without its leading and trailing whitespace (`str::trim`).
pub open spec fn trim(s: Seq<char>) -> Seq<char> {
    let a = skip_ws(s, 0);
    s.subrange(a, back_ws(s, a, s.len() as int))
}

/// Text that starts and ends with a non-whitespace character is its own trim.
pub proof fn lemma_trim_unchanged(s: Seq<char>)
    requires
        s.len() > 0,
        !is_ws(s[0]),
        !is_ws(s.last()),
    ensures
        trim(s) == s,
{
    assert(skip_ws(s, 0) == 0);
    assert(back_ws(s, 0, s.len() as int) == s.len());
    assert(s.subrange(0, s.len() as int) =~= s);
}

pub proof fn lemma_line_split_no_break(s: Seq<char>)
    requires
        !s.contains('\n'),
    ensures
        line_split(s) == (Seq::<Seq<char>>::empty(), s),
    decreases s.len(),
{
    if s.len() > 0 {
        assert(!s.drop_last().contains('\n')) by {
            if s.drop_last().contains('\n') {
                let k = choose|k: int| 0 <= k < s.drop_last().len() && s.drop_last()[k] == '\n';
                assert(s[k] == '\n');
            }
        }
        lemma_line_split_no_break(s.drop_last());
        assert(s.last() != '\n') by {
            assert(s[s.len() - 1] == s.last());
        }
        assert(s.drop_last().push(s.last()) =~= s);
    }
}

/// Nonempty text without a line break is one line.
pub proof fn lemma_text_lines_single(s: Seq<char>)
    requires
        s.len() > 0,
        !s.contains('\n'),
    ensures
        text_lines(s) == seq![s],
{
    lemma_line_split_no_break(s);
    assert(Seq::<Seq<char>>::empty().push(s) =~= seq![s]);
}

/// Splitting a text after a finished line: the lines of `p + s` are those of `p`
/// followed by those of `s`.
pub proof fn lemma_line_split_append(p: Seq<char>, s: Seq<char>)
    requires
        line_split(p).1.len() == 0,
    ensures
        line_split(p + s) == (line_split(p).0 + line_split(s).0, line_split(s).1),
    decreases s.len(),
{
    if s.len() == 0 {
        assert(p + s =~= p);
        assert(line_split(p).0 + Seq::<Seq<char>>::empty() =~= line_split(p).0);
    } else {
        lemma_line_split_append(p, s.drop_last());
        assert((p + s).drop_last() =~= p + s.drop_last());
        assert((p + s).last() == s.last());
        let dp = line_split(p).0;
        let ds = line_split(s.drop_last()).0;
        assert((dp + ds).push(strip_cr(line_split(s.drop_last()).1)) =~= dp + ds.push(
            strip_cr(line_split(s.drop_last()).1),
        ));
    }
}

/// A text that ends in a line break: its last line is closed.
pub proof fn lemma_line_split_closed(p: Seq<char>)
    ensures
        line_split(p.push('\n')) == (line_split(p).0.push(strip_cr(line_split(p).1)), Seq::<char>::empty()),
{
    assert(p.push('\n').drop_last() =~= p);
}

/// Bounds of `s.trim()` within `s`.
pub fn trim_bounds(s: &Vec<char>) -> (res: (usize, usize))
    ensures
        res.0 <= res.1 <= s@.len(),
        s@.subrange(res.0 as int, res.1 as int) == trim(s@),
{
    let n = s.len();
    let mut a: usize = 0;
    while a < n && is_whitespace(s[a])
        invariant
            a <= n,
            n == s@.len(),
            skip_ws(s@, a as int) == skip_ws(s@, 0),
        decreases n - a,
    {
        a = a + 1;
    }
    let mut b: usize = n;
    while b > a && is_whitespace(s[b - 1])
        invariant
            a <= b <= n,
            n == s@.len(),
            skip_ws(s@, 0) == a,
            back_ws(s@, a as int, b as int) == back_ws(s@, a as int, n as int),
        decreases b,
    {
        b = b - 1;
    }
    (a, b)
}

/// The characters of `s.trim()`.
pub fn trimmed(s: &Vec<char>) -> (res: Vec<char>)
    ensures
        res@ == trim(s@),
{
    let (a, b) = trim_bounds(s);
    chars_range(s, a, b)
}

} // verus!
