use vstd::prelude::*;

verus! {

/// Copies the characters of a string slice into a vector.
pub fn chars_of(s: &str) -> (v: Vec<char>)
    ensures
        v@ == s@,
{
    let mut v: Vec<char> = Vec::new();
    for c in it: s.chars()
        invariant
            v@ == it.seq().take(it.index() as int),
            it.seq() == s@,
    {
        v.push(c);
    }
    v
}

/// An owned copy of a string slice.
pub fn str_to_string(s: &str) -> (r: String)
    ensures
        r@ == s@,
{
    s.to_owned()
}

/// Builds a `String` out of a slice of characters (`String::from_iter`).
#[verifier::external_body]
pub(crate) fn string_of(v: &[char]) -> (s: String)
    ensures
        s@ == v@,
{
    String::from_iter(v)
}

/// The characters `v[from..to]` as a `String`.
pub fn string_of_range(v: &Vec<char>, from: usize, to: usize) -> (s: String)
    requires
        from <= to <= v@.len(),
    ensures
        s@ == v@.subrange(from as int, to as int),
{
    let mut out: Vec<char> = Vec::new();
    let mut k = from;
    while k < to
        invariant
            from <= k <= to <= v@.len(),
            out@ == v@.subrange(from as int, k as int),
        decreases to - k,
    {
        out.push(v[k]);
        k += 1;
        assert(out@ =~= v@.subrange(from as int, k as int));
    }
    string_of(out.as_slice())
}

/// Character-wise equality of two strings.
pub fn str_eq(a: &str, b: &str) -> (r: bool)
    ensures
        r == (a@ == b@),
{
    let va = chars_of(a);
    let vb = chars_of(b);
    seq_eq(&va, &vb)
}

/// Element-wise equality of two character vectors.
pub fn seq_eq(a: &Vec<char>, b: &Vec<char>) -> (r: bool)
    ensures
        r == (a@ == b@),
{
    if a.len() != b.len() {
        return false;
    }
    let mut i: usize = 0;
    while i < a.len()
        invariant
            a@.len() == b@.len(),
            0 <= i <= a@.len(),
            forall|j: int| 0 <= j < i ==> a@[j] == b@[j],
        decreases a.len() - i,
    {
        if a[i] != b[i] {
            return false;
        }
        i += 1;
    }
    assert(a@ =~= b@);
    true
}

// ---------------------------------------------------------------------------
// Case and whitespace, as the standard library defines them

/// `str::to_lowercase`: the full Unicode lower-case mapping, a function of the text.
pub uninterp spec fn lowercase(s: Seq<char>) -> Seq<char>;

/// `char::is_whitespace`: whether the character has the Unicode `White_Space`
/// property. Those are the control characters from tab to carriage return, space,
/// next line, no-break space, the Ogham space mark, the spaces from en quad to hair
/// space, the line and paragraph separators, the narrow no-break space, the medium
/// mathematical space and the ideographic space.
pub open spec fn unicode_white_space(c: char) -> bool {
    let u = c as u32;
    ||| 0x09 <= u <= 0x0D
    ||| u == 0x20
    ||| u == 0x85
    ||| u == 0xA0
    ||| u == 0x1680
    ||| 0x2000 <= u <= 0x200A
    ||| u == 0x2028
    ||| u == 0x2029
    ||| u == 0x202F
    ||| u == 0x205F
    ||| u == 0x3000
}

/// Calls `str::to_lowercase`.
#[verifier::external_body]
pub(crate) fn to_lower(s: &str) -> (r: String)
    ensures
        r@ == lowercase(s@),
{
    s.to_lowercase()
}

/// `char::is_whitespace`: whether the character has the Unicode `White_Space`
/// property.
pub(crate) fn char_is_whitespace(c: char) -> (r: bool)
    ensures
        r == unicode_white_space(c),
{
    let u = c as u32;
    (0x09 <= u && u <= 0x0D) || u == 0x20 || u == 0x85 || u == 0xA0 || u == 0x1680
        || (0x2000 <= u && u <= 0x200A) || u == 0x2028 || u == 0x2029 || u == 0x202F
        || u == 0x205F || u == 0x3000
}

/// The `Debug` text of a string: the string quoted, with its special characters
/// escaped.
pub uninterp spec fn debug_quoted(s: Seq<char>) -> Seq<char>;

/// The `Debug` texts of strings, separated by `, `.
pub open spec fn debug_items(items: Seq<Seq<char>>) -> Seq<char>
    decreases items.len(),
{
    if items.len() == 0 {
        seq![]
    } else if items.len() == 1 {
        debug_quoted(items[0])
    } else {
        debug_items(items.drop_last()) + ", "@ + debug_quoted(items.last())
    }
}

/// The `Debug` text of a list of strings: `[`, each string's `Debug` text separated
/// by `, `, then `]`.
pub open spec fn debug_list(items: Seq<Seq<char>>) -> Seq<char> {
    "["@ + debug_items(items) + "]"@
}

/// Formats a string with `{:?}`.
#[verifier::external_body]
pub(crate) fn debug_str(s: &str) -> (r: String)
    ensures
        r@ == debug_quoted(s@),
{
    format!("{:?}", s)
}

/// Formats a list of strings with `{:?}`: `Debug` for a `Vec` writes `[`, the `Debug`
/// text of each item separated by `, `, then `]`.
#[verifier::external_body]
pub(crate) fn debug_strings(items: &Vec<String>) -> (r: String)
    ensures
        r@ == debug_list(items@.map_values(|s: String| s@)),
{
    format!("{:?}", items)
}

// ---------------------------------------------------------------------------
// Comparisons of character sequences

pub open spec fn starts_with(s: Seq<char>, p: Seq<char>) -> bool {
    p.len() <= s.len() && s.take(p.len() as int) == p
}

pub open spec fn ends_with(s: Seq<char>, p: Seq<char>) -> bool {
    p.len() <= s.len() && s.skip(s.len() - p.len()) == p
}

pub open spec fn occurs_at(s: Seq<char>, p: Seq<char>, i: int) -> bool {
    0 <= i && i + p.len() <= s.len() && s.subrange(i, i + p.len()) == p
}

pub open spec fn contains_seq(s: Seq<char>, p: Seq<char>) -> bool {
    exists|i: int| #[trigger] occurs_at(s, p, i)
}

/// `w` is one of the whitespace-separated words of `s` (as `split_whitespace` gives
/// them): a non-empty run of non-whitespace characters bounded by whitespace or by
/// the ends of `s`.
pub open spec fn is_word_at(s: Seq<char>, w: Seq<char>, i: int) -> bool {
    &&& w.len() > 0
    &&& occurs_at(s, w, i)
    &&& (forall|k: int| 0 <= k < w.len() ==> !unicode_white_space(#[trigger] w[k]))
    &&& (i == 0 || unicode_white_space(s[i - 1]))
    &&& (i + w.len() == s.len() || unicode_white_space(s[i + w.len()]))
}

pub open spec fn has_word(s: Seq<char>, w: Seq<char>) -> bool {
    exists|i: int| #[trigger] is_word_at(s, w, i)
}

/// The parts joined by single spaces.
pub open spec fn join_space(parts: Seq<Seq<char>>) -> Seq<char>
    decreases parts.len(),
{
    if parts.len() == 0 {
        seq![]
    } else if parts.len() == 1 {
        parts[0]
    } else {
        join_space(parts.drop_last()) + seq![' '] + parts.last()
    }
}

/// Whether `p` occurs in `s` at position `i`.
fn occurs_at_exec(s: &Vec<char>, p: &Vec<char>, i: usize) -> (r: bool)
    ensures
        r == occurs_at(s@, p@, i as int),
{
    if i > s.len() || p.len() > s.len() - i {
        return false;
    }
    let mut k: usize = 0;
    let ghost slen = s.len();
    while k < p.len()
        invariant
            slen == s@.len(),
            slen <= usize::MAX,
            i + p@.len() <= s@.len(),
            0 <= k <= p@.len(),
            forall|j: int| 0 <= j < k ==> s@[i + j] == p@[j],
        decreases p.len() - k,
    {
        if s[i + k] != p[k] {
            assert(s@.subrange(i as int, i + p@.len())[k as int] != p@[k as int]);
            return false;
        }
        k += 1;
    }
    assert(s@.subrange(i as int, i + p@.len()) =~= p@);
    true
}

pub fn starts_with_exec(s: &Vec<char>, p: &Vec<char>) -> (r: bool)
    ensures
        r == starts_with(s@, p@),
{
    let r = occurs_at_exec(s, p, 0);
    proof {
        if p@.len() <= s@.len() {
            assert(s@.take(p@.len() as int) =~= s@.subrange(0, p@.len() as int));
        }
    }
    r
}

pub fn ends_with_exec(s: &Vec<char>, p: &Vec<char>) -> (r: bool)
    ensures
        r == ends_with(s@, p@),
{
    if p.len() > s.len() {
        return false;
    }
    let i = s.len() - p.len();
    let r = occurs_at_exec(s, p, i);
    assert(s@.skip(i as int) =~= s@.subrange(i as int, i + p@.len()));
    r
}

pub fn contains_exec(s: &Vec<char>, p: &Vec<char>) -> (r: bool)
    ensures
        r == contains_seq(s@, p@),
{
    if p.len() > s.len() {
        assert(forall|i: int| !occurs_at(s@, p@, i));
        return false;
    }
    let last = s.len() - p.len();
    let mut i: usize = 0;
    loop
        invariant
            last == s@.len() - p@.len(),
            0 <= i <= last,
            forall|j: int| 0 <= j < i ==> !occurs_at(s@, p@, j),
        ensures
            forall|j: int| 0 <= j <= last ==> !occurs_at(s@, p@, j),
        decreases last - i,
    {
        if occurs_at_exec(s, p, i) {
            return true;
        }
        if i == last {
            break;
        }
        i += 1;
    }
    assert forall|j: int| !occurs_at(s@, p@, j) by {
        if 0 <= j && j + p@.len() <= s@.len() {
            assert(j <= last);
        }
    }
    false
}

/// Whether `w` is one of the whitespace-separated words of `s`.
pub fn has_word_exec(s: &Vec<char>, w: &Vec<char>) -> (r: bool)
    ensures
        r == has_word(s@, w@),
{
    let n = s.len();
    let mut i: usize = 0;
    while i < n
        invariant
            n == s@.len(),
            0 <= i <= n,
            forall|j: int| 0 <= j < i ==> !is_word_at(s@, w@, j),
        decreases n - i,
    {
        if char_is_whitespace(s[i]) {
            assert(!is_word_at(s@, w@, i as int)) by {
                if w@.len() > 0 && occurs_at(s@, w@, i as int) {
                    assert(w@[0] == s@.subrange(i as int, i + w@.len())[0]);
                }
            }
            i += 1;
            continue;
        }
        // a word starts at `i` only if `i` follows whitespace or the start
        let starts = i == 0 || char_is_whitespace(s[i - 1]);
        // find the end of the run of non-whitespace characters
        let mut e = i + 1;
        while e < n && !char_is_whitespace(s[e])
            invariant
                n == s@.len(),
                i < e <= n,
                forall|k: int| i <= k < e ==> !unicode_white_space(#[trigger] s@[k]),
            decreases n - e,
        {
            e += 1;
        }
        // the run is s[i..e]; it is a word exactly when it equals `w` and starts a word
        let is_w = starts && e - i == w.len() && occurs_at_exec(s, w, i);
        if is_w {
            assert(is_word_at(s@, w@, i as int)) by {
                assert forall|k: int| 0 <= k < w@.len() implies !unicode_white_space(#[trigger] w@[k]) by {
                    assert(w@[k] == s@.subrange(i as int, i + w@.len())[k]);
                }
            }
            return true;
        }
        // no word starts inside i..e other than possibly at i
        assert forall|j: int| i <= j < e implies !is_word_at(s@, w@, j) by {
            if j > i {
                assert(!unicode_white_space(s@[j - 1]));
            } else if is_word_at(s@, w@, j) {
                if w@.len() != e - i {
                    if w@.len() < e - i {
                        assert(!unicode_white_space(s@[i + w@.len()]));
                    } else {
                        assert(s@[e as int] == s@.subrange(j, j + w@.len())[e - j]);
                        assert(w@[e - j] == s@[e as int]);
                        assert(unicode_white_space(s@[e as int]));
                    }
                }
            }
        }
        i = e;
    }
    false
}

/// The parts joined by single spaces.
pub fn join_space_exec(parts: &Vec<String>) -> (r: String)
    ensures
        r@ == join_space(crate::selector::ast::view_strings(parts@)),
{
    let ghost v = crate::selector::ast::view_strings(parts@);
    let mut out: Vec<char> = Vec::new();
    let mut i: usize = 0;
    assert(v.take(0) =~= Seq::<Seq<char>>::empty());
    while i < parts.len()
        invariant
            v == crate::selector::ast::view_strings(parts@),
            v.len() == parts@.len(),
            0 <= i <= parts@.len(),
            out@ == join_space(v.take(i as int)),
        decreases parts.len() - i,
    {
        if i > 0 {
            out.push(' ');
        }
        let mut c = chars_of(parts[i].as_str());
        out.append(&mut c);
        proof {
            let t = v.take(i + 1);
            assert(t.drop_last() =~= v.take(i as int));
            if i == 0 {
                assert(out@ =~= join_space(t));
            } else {
                assert(out@ =~= join_space(t));
            }
        }
        i += 1;
    }
    assert(v.take(i as int) =~= v);
    string_of(out.as_slice())
}


// ---------------------------------------------------------------------------
// Normalized names: lower case, spaces replaced by underscores

/// `s` with each space replaced by an underscore.
pub open spec fn underscored(s: Seq<char>) -> Seq<char> {
    s.map_values(|c: char| if c == ' ' { '_' } else { c })
}

/// The lower-case form of `s`, with spaces replaced by underscores.
pub open spec fn normalized(s: Seq<char>) -> Seq<char> {
    underscored(lowercase(s))
}

/// `s.to_lowercase().replace(' ', "_")`.
pub fn normalize(s: &str) -> (r: String)
    ensures
        r@ == normalized(s@),
{
    let lower = to_lower(s);
    let chars = chars_of(lower.as_str());
    let mut out: Vec<char> = Vec::new();
    let mut i: usize = 0;
    while i < chars.len()
        invariant
            0 <= i <= chars@.len(),
            out@ == underscored(chars@.take(i as int)),
        decreases chars.len() - i,
    {
        let c = chars[i];
        out.push(if c == ' ' { '_' } else { c });
        assert(underscored(chars@.take(i + 1)) =~= underscored(chars@.take(i as int)).push(if c == ' ' { '_' } else { c }));
        i += 1;
    }
    assert(chars@.take(i as int) =~= chars@);
    string_of(out.as_slice())
}

/// Each piece normalized.
pub open spec fn normalized_all(pieces: Seq<Seq<char>>) -> Seq<Seq<char>> {
    pieces.map_values(|p: Seq<char>| normalized(p))
}

/// The pieces of `s` between commas, as `str::split(',')` gives them: one more
/// piece than there are commas, empty pieces included.
pub open spec fn split_commas(s: Seq<char>) -> Seq<Seq<char>>
    decreases s.len(),
{
    if s.len() == 0 {
        seq![seq![]]
    } else {
        let rest = split_commas(s.drop_last());
        if s.last() == ',' {
            rest.push(seq![])
        } else {
            rest.update(rest.len() - 1, rest.last().push(s.last()))
        }
    }
}

/// The pieces of `s` between commas, each normalized.
pub fn split_normalized(s: &str) -> (r: Vec<String>)
    ensures
        crate::selector::ast::view_strings(r@) == normalized_all(split_commas(s@)),
{
    let chars = chars_of(s);
    let mut pieces: Vec<Vec<char>> = Vec::new();
    pieces.push(Vec::new());
    let mut i: usize = 0;
    assert(chars@.take(0) =~= Seq::<char>::empty());
    while i < chars.len()
        invariant
            0 <= i <= chars@.len(),
            pieces@.len() >= 1,
            pieces@.map_values(|p: Vec<char>| p@) == split_commas(chars@.take(i as int)),
        decreases chars.len() - i,
    {
        let c = chars[i];
        let ghost before = pieces@.map_values(|p: Vec<char>| p@);
        assert(chars@.take(i + 1).drop_last() =~= chars@.take(i as int));
        if c == ',' {
            pieces.push(Vec::new());
            assert(pieces@.map_values(|p: Vec<char>| p@) =~= before.push(seq![]));
        } else {
            let last = pieces.len() - 1;
            let mut piece = pieces[last].clone();
            piece.push(c);
            pieces.set(last, piece);
            assert(pieces@.map_values(|p: Vec<char>| p@) =~= before.update(before.len() - 1, before.last().push(c)));
        }
        i += 1;
    }
    assert(chars@.take(i as int) =~= chars@);
    let ghost split = pieces@.map_values(|p: Vec<char>| p@);
    let mut out: Vec<String> = Vec::new();
    let mut j: usize = 0;
    while j < pieces.len()
        invariant
            0 <= j <= pieces@.len(),
            split == pieces@.map_values(|p: Vec<char>| p@),
            crate::selector::ast::view_strings(out@) == normalized_all(split.take(j as int)),
        decreases pieces.len() - j,
    {
        let text = string_of(pieces[j].as_slice());
        assert(text@ == split[j as int]);
        let piece = normalize(text.as_str());
        let ghost prev = out@;
        assert(crate::selector::ast::view_strings(prev).len() == j);
        out.push(piece);
        assert(out@ == prev.push(piece));
        assert forall|k: int| 0 <= k < j + 1 implies #[trigger] crate::selector::ast::view_strings(out@)[k]
            == normalized_all(split.take(j + 1))[k] by {
            if k < j {
                assert(out@[k] == prev[k]);
                assert(crate::selector::ast::view_strings(prev)[k] == normalized_all(split.take(j as int))[k]);
            }
        }
        assert(crate::selector::ast::view_strings(out@) =~= normalized_all(split.take(j + 1)));
        j += 1;
    }
    assert(split.take(j as int) =~= split);
    out
}

/// Each name normalized.
pub fn normalize_all(names: &Vec<String>) -> (r: Vec<String>)
    ensures
        crate::selector::ast::view_strings(r@) == normalized_all(crate::selector::ast::view_strings(names@)),
{
    let mut out: Vec<String> = Vec::new();
    let mut j: usize = 0;
    while j < names.len()
        invariant
            0 <= j <= names@.len(),
            crate::selector::ast::view_strings(out@) == normalized_all(crate::selector::ast::view_strings(names@.take(j as int))),
        decreases names.len() - j,
    {
        let piece = normalize(names[j].as_str());
        let ghost prev = out@;
        assert(crate::selector::ast::view_strings(prev).len() == j);
        out.push(piece);
        assert(out@ == prev.push(piece));
        assert forall|k: int| 0 <= k < j + 1 implies #[trigger] crate::selector::ast::view_strings(out@)[k]
            == normalized_all(crate::selector::ast::view_strings(names@.take(j + 1)))[k] by {
            if k < j {
                assert(out@[k] == prev[k]);
                assert(crate::selector::ast::view_strings(prev)[k] == normalized_all(crate::selector::ast::view_strings(names@.take(j as int)))[k]);
            }
        }
        assert(crate::selector::ast::view_strings(out@) =~= normalized_all(crate::selector::ast::view_strings(names@.take(j + 1))));
        j += 1;
    }
    assert(names@.take(j as int) =~= names@);
    out
}

} // verus!
