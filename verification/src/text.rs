use vstd::prelude::*;

verus! {

// ---------------------------------------------------------------------------
// Characters and strings
// ---------------------------------------------------------------------------
/// Unicode `White_Space`, the set that `char::is_whitespace` tests for.
pub open spec fn is_ws(c: char) -> bool {
    let u = c as u32;
    ||| 0x09 <= u <= 0x0D
    ||| u == 0x20
    ||| u == 0x85
    ||| u == 0xA0
    ||| u == 0x1680
    ||| 0x2000 <= u <= 0x200A
    ||| u == 0x2028
    ||| u == 0x2029
    ||| u == 0x202F
    ||| u == 0x205F
    ||| u == 0x3000
}

/// Tests a character for Unicode white space.
pub fn is_whitespace(c: char) -> (b: bool)
    ensures
        b == is_ws(c),
{
    let u = c as u32;
    (0x09 <= u && u <= 0x0D) || u == 0x20 || u == 0x85 || u == 0xA0 || u == 0x1680 || (0x2000
        <= u && u <= 0x200A) || u == 0x2028 || u == 0x2029 || u == 0x202F || u == 0x205F || u
        == 0x3000
}

/// The characters of a string slice, in order.
pub fn str_chars(s: &str) -> (v: Vec<char>)
    ensures
        v@ == s@,
{
    let mut v: Vec<char> = Vec::new();
    for c in it: s.chars()
        invariant
            v@ == it.seq().take(it.index() as int),
            it.seq() == s@,
    {
        v.push(c);
    }
    v
}

/// `String::push`: appends one character at the end of the string.
#[verifier::external_body]
fn push_char(s: &mut String, c: char)
    ensures
        final(s)@ == old(s)@.push(c),
{
    s.push(c);
}

/// A string that holds the given characters, in order.
pub fn string_from_chars(v: &Vec<char>) -> (s: String)
    ensures
        s@ == v@,
{
    let mut s = String::new();
    for i in 0..v.len()
        invariant
            s@ == v@.take(i as int),
    {
        push_char(&mut s, v[i]);
        assert(v@.take(i + 1) =~= v@.take(i as int).push(v@[i as int]));
    }
    assert(v@.take(v.len() as int) =~= v@);
    s
}

/// Whether two character sequences are equal.
pub fn chars_eq(a: &Vec<char>, b: &Vec<char>) -> (r: bool)
    ensures
        r == (a@ == b@),
{
    if a.len() != b.len() {
        return false;
    }
    for i in 0..a.len()
        invariant
            a.len() == b.len(),
            forall|j: int| 0 <= j < i ==> a@[j] == b@[j],
    {
        if a[i] != b[i] {
            return false;
        }
    }
    assert(a@ =~= b@);
    true
}

/// Whether two strings hold the same characters.
pub fn str_eq(a: &str, b: &str) -> (r: bool)
    ensures
        r == (a@ == b@),
{
    let va = str_chars(a);
    let vb = str_chars(b);
    chars_eq(&va, &vb)
}

// ---------------------------------------------------------------------------
// Replacing every occurrence of a pattern
// ---------------------------------------------------------------------------
/// `s` with every occurrence of `pat` replaced by `rep`, occurrences found left to right
/// without overlap (what `str::replace` does for a non-empty pattern).
pub open spec fn replace_all(s: Seq<char>, pat: Seq<char>, rep: Seq<char>) -> Seq<char>
    decreases s.len(),
{
    if s.len() == 0 {
        seq![]
    } else if 0 < pat.len() <= s.len() && s.subrange(0, pat.len() as int) == pat {
        rep + replace_all(s.skip(pat.len() as int), pat, rep)
    } else {
        seq![s[0]] + replace_all(s.skip(1), pat, rep)
    }
}

/// Whether `pat` occurs in `s` at position `i`.
fn occurs_at(s: &Vec<char>, i: usize, pat: &Vec<char>) -> (b: bool)
    requires
        i <= s.len(),
    ensures
        b == (pat.len() <= s.len() - i && s@.subrange(i as int, i + pat.len()) == pat@),
{
    if pat.len() > s.len() - i {
        return false;
    }
    for j in 0..pat.len()
        invariant
            pat.len() <= s.len() - i,
            forall|k: int| 0 <= k < j ==> s@[i + k] == pat@[k],
    {
        if s[i + j] != pat[j] {
            assert(s@.subrange(i as int, i + pat.len())[j as int] != pat@[j as int]);
            return false;
        }
    }
    assert(s@.subrange(i as int, i + pat.len()) =~= pat@);
    true
}

/// Appends all of `src` to `dst`.
fn append_chars(dst: &mut Vec<char>, src: &Vec<char>)
    ensures
        final(dst)@ == old(dst)@ + src@,
{
    for i in 0..src.len()
        invariant
            dst@ == old(dst)@ + src@.take(i as int),
    {
        dst.push(src[i]);
        assert(src@.take(i + 1) =~= src@.take(i as int).push(src@[i as int]));
    }
    assert(src@.take(src.len() as int) =~= src@);
}

/// Replaces every occurrence of `pat` in `s` by `rep`.
pub fn replace_chars(s: &Vec<char>, pat: &Vec<char>, rep: &Vec<char>) -> (r: Vec<char>)
    requires
        pat.len() > 0,
    ensures
        r@ == replace_all(s@, pat@, rep@),
{
    let mut r: Vec<char> = Vec::new();
    let mut i: usize = 0;
    assert(s@.skip(0) =~= s@);
    while i < s.len()
        invariant
            i <= s.len(),
            pat.len() > 0,
            r@ + replace_all(s@.skip(i as int), pat@, rep@) == replace_all(s@, pat@, rep@),
        decreases s.len() - i,
    {
        let ghost rest = s@.skip(i as int);
        if occurs_at(s, i, pat) {
            assert(rest.subrange(0, pat@.len() as int) =~= s@.subrange(
                i as int,
                i + pat.len(),
            ));
            assert(rest.skip(pat@.len() as int) =~= s@.skip(i + pat.len()));
            let ghost before = r@;
            append_chars(&mut r, rep);
            let ghost tail = replace_all(s@.skip(i + pat.len()), pat@, rep@);
            assert(r@ + tail =~= before + (rep@ + tail));
            i = i + pat.len();
        } else {
            assert(pat@.len() <= rest.len() ==> rest.subrange(0, pat@.len() as int)
                =~= s@.subrange(i as int, i + pat.len()));
            assert(rest.skip(1) =~= s@.skip(i + 1));
            r.push(s[i]);
            i = i + 1;
        }
    }
    assert(s@.skip(i as int) =~= Seq::<char>::empty());
    assert(r@ + Seq::<char>::empty() =~= r@);
    r
}

// ---------------------------------------------------------------------------
// Trimming and case
// ---------------------------------------------------------------------------
/// `s` without its leading white space.
pub open spec fn trim_start(s: Seq<char>) -> Seq<char>
    decreases s.len(),
{
    if s.len() > 0 && is_ws(s[0]) {
        trim_start(s.skip(1))
    } else {
        s
    }
}

/// `s` without its trailing white space.
pub open spec fn trim_end(s: Seq<char>) -> Seq<char>
    decreases s.len(),
{
    if s.len() > 0 && is_ws(s.last()) {
        trim_end(s.drop_last())
    } else {
        s
    }
}

/// `s` without leading and trailing white space (what `str::trim` gives).
pub open spec fn trim(s: Seq<char>) -> Seq<char> {
    trim_end(trim_start(s))
}

/// The lower-case form of an ASCII letter; any other character is kept.
pub open spec fn ascii_lower_char(c: char) -> char {
    if 'A' <= c <= 'Z' {
        ((c as u32) + 32) as char
    } else {
        c
    }
}

/// `s` with its ASCII letters in lower case.
pub open spec fn ascii_lower(s: Seq<char>) -> Seq<char> {
    s.map_values(|c: char| ascii_lower_char(c))
}

/// Whether the text between `<` and `>` names a tag that ends a line: `br` (also with
/// attributes), `/br`, `/div` or `/p`, in any letter case, white space around it ignored.
///
/// Letter case is compared on ASCII letters only. No other character has a lower-case form
/// that holds one of the letters `b`, `d`, `i`, `p`, `r`, `v`, the space or `/`, so this is
/// the test that full Unicode lowering followed by the comparison makes.
pub open spec fn is_line_break_tag(tag: Seq<char>) -> bool {
    let t = ascii_lower(trim(tag));
    ||| t == seq!['b', 'r']
    ||| t == seq!['/', 'b', 'r']
    ||| (t.len() >= 3 && t.take(3) == seq!['b', 'r', ' '])
    ||| t == seq!['/', 'd', 'i', 'v']
    ||| t == seq!['/', 'p']
}

/// The lower-case form of an ASCII letter; any other character is kept.
pub fn lower_char(c: char) -> (r: char)
    ensures
        r == ascii_lower_char(c),
{
    if 'A' <= c && c <= 'Z' {
        let u: u8 = (c as u8) + 32;
        u as char
    } else {
        c
    }
}

proof fn lemma_trim_start_skip(s: Seq<char>, a: int)
    requires
        0 <= a <= s.len(),
        forall|k: int| 0 <= k < a ==> is_ws(s[k]),
    ensures
        trim_start(s) == trim_start(s.skip(a)),
    decreases a,
{
    if a > 0 {
        lemma_trim_start_skip(s, a - 1);
        assert(s.skip(a - 1).skip(1) =~= s.skip(a));
        assert(s.skip(a - 1)[0] == s[a - 1]);
    } else {
        assert(s.skip(0) =~= s);
    }
}

proof fn lemma_trim_end_take(s: Seq<char>, b: int)
    requires
        0 <= b <= s.len(),
        forall|k: int| b <= k < s.len() ==> is_ws(s[k]),
    ensures
        trim_end(s) == trim_end(s.take(b)),
    decreases s.len() - b,
{
    if b < s.len() {
        lemma_trim_end_take(s, b + 1);
        assert(s.take(b + 1).drop_last() =~= s.take(b));
        assert(s.take(b + 1).last() == s[b]);
    } else {
        assert(s.take(b) =~= s);
    }
}

/// The lower-cased, trimmed text of a tag, as `is_line_break_tag` reads it.
fn lowered_trimmed(tag: &Vec<char>) -> (t: Vec<char>)
    ensures
        t@ == ascii_lower(trim(tag@)),
{
    let n = tag.len();
    let mut a: usize = 0;
    while a < n && is_whitespace(tag[a])
        invariant
            a <= n == tag.len(),
            forall|k: int| 0 <= k < a ==> is_ws(tag@[k]),
        decreases n - a,
    {
        a = a + 1;
    }
    proof {
        lemma_trim_start_skip(tag@, a as int);
    }
    let ghost rest = tag@.skip(a as int);
    assert(trim_start(rest) == rest);
    let mut b: usize = n;
    while b > a && is_whitespace(tag[b - 1])
        invariant
            a <= b <= n == tag.len(),
            rest == tag@.skip(a as int),
            forall|k: int| b <= k < n ==> is_ws(tag@[k]),
        decreases b - a,
    {
        b = b - 1;
    }
    proof {
        lemma_trim_end_take(rest, b - a);
        let kept = rest.take(b - a);
        assert(kept.len() > 0 ==> kept.last() == tag@[b - 1]);
        assert(trim_end(kept) == kept);
    }
    let mut t: Vec<char> = Vec::new();
    for i in a..b
        invariant
            a <= b <= n == tag.len(),
            t@ == ascii_lower(tag@.subrange(a as int, i as int)),
    {
        t.push(lower_char(tag[i]));
        assert(ascii_lower(tag@.subrange(a as int, i + 1)) =~= ascii_lower(
            tag@.subrange(a as int, i as int),
        ).push(ascii_lower_char(tag@[i as int])));
    }
    assert(rest.take(b - a) =~= tag@.subrange(a as int, b as int));
    t
}

/// Whether the text of a tag names a tag that ends a line.
pub fn line_break_tag(tag: &Vec<char>) -> (b: bool)
    ensures
        b == is_line_break_tag(tag@),
{
    let t = lowered_trimmed(tag);
    let br = vec!['b', 'r'];
    let end_br = vec!['/', 'b', 'r'];
    let end_div = vec!['/', 'd', 'i', 'v'];
    let end_p = vec!['/', 'p'];
    let br_space = t.len() >= 3 && t[0] == 'b' && t[1] == 'r' && t[2] == ' ';
    assert(t@.len() >= 3 ==> (br_space <==> t@.take(3) =~= seq!['b', 'r', ' ']));
    assert(br@ =~= seq!['b', 'r']);
    assert(end_br@ =~= seq!['/', 'b', 'r']);
    assert(end_div@ =~= seq!['/', 'd', 'i', 'v']);
    assert(end_p@ =~= seq!['/', 'p']);
    chars_eq(&t, &br) || chars_eq(&t, &end_br) || br_space || chars_eq(&t, &end_div) || chars_eq(
        &t,
        &end_p,
    )
}

// ---------------------------------------------------------------------------
// Removing markup
// ---------------------------------------------------------------------------
/// Where a left-to-right scan for tags stands: the text kept so far, whether it is inside a
/// tag, and the text of the tag read so far.
pub struct TagScan {
    pub kept: Seq<char>,
    pub inside: bool,
    pub tag: Seq<char>,
}

/// One character of the scan. `<` opens a tag and `>` closes one (also where none is open);
/// a closed tag that ends a line leaves a line break; any other character is kept outside a
/// tag and dropped inside one.
pub open spec fn tag_scan_step(st: TagScan, c: char) -> TagScan {
    if c == '<' {
        TagScan { kept: st.kept, inside: true, tag: seq![] }
    } else if c == '>' {
        TagScan {
            kept: if is_line_break_tag(st.tag) {
                st.kept.push('\n')
            } else {
                st.kept
            },
            inside: false,
            tag: seq![],
        }
    } else if st.inside {
        TagScan { kept: st.kept, inside: true, tag: st.tag.push(c) }
    } else {
        TagScan { kept: st.kept.push(c), inside: false, tag: st.tag }
    }
}

/// The scan after reading all of `s`.
pub open spec fn tag_scan(s: Seq<char>) -> TagScan
    decreases s.len(),
{
    if s.len() == 0 {
        TagScan { kept: seq![], inside: false, tag: seq![] }
    } else {
        tag_scan_step(tag_scan(s.drop_last()), s.last())
    }
}

/// The text of `s` with its tags removed and line-ending tags turned into line breaks.
pub open spec fn strip_tags(s: Seq<char>) -> Seq<char> {
    tag_scan(s).kept
}

/// Removes the tags from `s`, leaving a line break for each tag that ends a line.
pub fn strip_tag_chars(s: &Vec<char>) -> (r: Vec<char>)
    ensures
        r@ == strip_tags(s@),
{
    let mut kept: Vec<char> = Vec::new();
    let mut inside = false;
    let mut tag: Vec<char> = Vec::new();
    assert(s@.take(0) =~= Seq::<char>::empty());
    for i in 0..s.len()
        invariant
            tag_scan(s@.take(i as int)).kept == kept@,
            tag_scan(s@.take(i as int)).inside == inside,
            tag_scan(s@.take(i as int)).tag == tag@,
    {
        let c = s[i];
        assert(s@.take(i + 1).drop_last() =~= s@.take(i as int));
        assert(s@.take(i + 1).last() == c);
        if c == '<' {
            inside = true;
            tag = Vec::new();
        } else if c == '>' {
            inside = false;
            if line_break_tag(&tag) {
                kept.push('\n');
            }
            tag = Vec::new();
        } else if inside {
            tag.push(c);
        } else {
            kept.push(c);
        }
        assert(tag@ =~= tag_scan(s@.take(i + 1)).tag);
        assert(kept@ =~= tag_scan(s@.take(i + 1)).kept);
    }
    assert(s@.take(s.len() as int) =~= s@);
    kept
}

// ---------------------------------------------------------------------------
// White space
// ---------------------------------------------------------------------------
/// The result of collapsing white space so far, and whether a space is owed before the next
/// word.
pub open spec fn collapse_scan(s: Seq<char>) -> (Seq<char>, bool)
    decreases s.len(),
{
    if s.len() == 0 {
        (seq![], false)
    } else {
        let (out, pending) = collapse_scan(s.drop_last());
        let c = s.last();
        if is_ws(c) {
            (out, out.len() > 0)
        } else {
            ((if pending {
                out.push(' ')
            } else {
                out
            }).push(c), false)
        }
    }
}

/// The words of `s` (its runs of non-white-space characters), joined by single spaces.
pub open spec fn collapse_whitespace(s: Seq<char>) -> Seq<char> {
    collapse_scan(s).0
}

/// Joins the words of `s` by single spaces.
pub fn collapse_chars(s: &Vec<char>) -> (r: Vec<char>)
    ensures
        r@ == collapse_whitespace(s@),
{
    let mut out: Vec<char> = Vec::new();
    let mut pending = false;
    assert(s@.take(0) =~= Seq::<char>::empty());
    for i in 0..s.len()
        invariant
            collapse_scan(s@.take(i as int)) == (out@, pending),
    {
        let c = s[i];
        assert(s@.take(i + 1).drop_last() =~= s@.take(i as int));
        if is_whitespace(c) {
            pending = out.len() > 0;
        } else {
            if pending {
                out.push(' ');
            }
            out.push(c);
            pending = false;
        }
    }
    assert(s@.take(s.len() as int) =~= s@);
    out
}

// ---------------------------------------------------------------------------
// Entities and the one-line name
// ---------------------------------------------------------------------------
/// The XML entities of a drawio label decoded, in this order: `&lt;`, `&gt;`, `&quot;`,
/// `&amp;`, `&apos;`.
pub open spec fn decode_xml_entities(s: Seq<char>) -> Seq<char> {
    let s1 = replace_all(s, seq!['&', 'l', 't', ';'], seq!['<']);
    let s2 = replace_all(s1, seq!['&', 'g', 't', ';'], seq!['>']);
    let s3 = replace_all(s2, seq!['&', 'q', 'u', 'o', 't', ';'], seq!['"']);
    let s4 = replace_all(s3, seq!['&', 'a', 'm', 'p', ';'], seq!['&']);
    replace_all(s4, seq!['&', 'a', 'p', 'o', 's', ';'], seq!['\''])
}

/// The HTML entities of the visible text decoded, in this order: `&nbsp;`, `&amp;`, `&lt;`,
/// `&gt;`, `&quot;`.
pub open spec fn decode_html_entities(s: Seq<char>) -> Seq<char> {
    let s1 = replace_all(s, seq!['&', 'n', 'b', 's', 'p', ';'], seq![' ']);
    let s2 = replace_all(s1, seq!['&', 'a', 'm', 'p', ';'], seq!['&']);
    let s3 = replace_all(s2, seq!['&', 'l', 't', ';'], seq!['<']);
    let s4 = replace_all(s3, seq!['&', 'g', 't', ';'], seq!['>']);
    replace_all(s4, seq!['&', 'q', 'u', 'o', 't', ';'], seq!['"'])
}

/// The visible text of an HTML label on one line: entities decoded, tags removed (tags that
/// end a line become white space), entities of the text decoded, and the words joined by
/// single spaces.
pub open spec fn one_line_text(s: Seq<char>) -> Seq<char> {
    collapse_whitespace(decode_html_entities(strip_tags(decode_xml_entities(s))))
}

/// The name given to an element without a label.
pub open spec fn unnamed() -> Seq<char> {
    seq!['U', 'n', 'n', 'a', 'm', 'e', 'd']
}

/// What `to_nice_string` gives for a label, or for no label.
pub open spec fn nice_string(input: Option<Seq<char>>) -> Seq<char> {
    match input {
        Some(s) => one_line_text(s),
        None => unnamed(),
    }
}

/// The string "Unnamed".
pub fn unnamed_string() -> (s: String)
    ensures
        s@ == unnamed(),
{
    let v = vec!['U', 'n', 'n', 'a', 'm', 'e', 'd'];
    assert(v@ =~= unnamed());
    string_from_chars(&v)
}

fn decode_xml_chars(s: &Vec<char>) -> (r: Vec<char>)
    ensures
        r@ == decode_xml_entities(s@),
{
    let lt = vec!['&', 'l', 't', ';'];
    let gt = vec!['&', 'g', 't', ';'];
    let quot = vec!['&', 'q', 'u', 'o', 't', ';'];
    let amp = vec!['&', 'a', 'm', 'p', ';'];
    let apos = vec!['&', 'a', 'p', 'o', 's', ';'];
    let one_lt = vec!['<'];
    let one_gt = vec!['>'];
    let one_quot = vec!['"'];
    let one_amp = vec!['&'];
    let one_apos = vec!['\''];
    assert(lt@ =~= seq!['&', 'l', 't', ';']);
    assert(gt@ =~= seq!['&', 'g', 't', ';']);
    assert(quot@ =~= seq!['&', 'q', 'u', 'o', 't', ';']);
    assert(amp@ =~= seq!['&', 'a', 'm', 'p', ';']);
    assert(apos@ =~= seq!['&', 'a', 'p', 'o', 's', ';']);
    assert(one_lt@ =~= seq!['<']);
    assert(one_gt@ =~= seq!['>']);
    assert(one_quot@ =~= seq!['"']);
    assert(one_amp@ =~= seq!['&']);
    assert(one_apos@ =~= seq!['\'']);
    let s1 = replace_chars(s, &lt, &one_lt);
    let s2 = replace_chars(&s1, &gt, &one_gt);
    let s3 = replace_chars(&s2, &quot, &one_quot);
    let s4 = replace_chars(&s3, &amp, &one_amp);
    replace_chars(&s4, &apos, &one_apos)
}

fn decode_html_chars(s: &Vec<char>) -> (r: Vec<char>)
    ensures
        r@ == decode_html_entities(s@),
{
    let nbsp = vec!['&', 'n', 'b', 's', 'p', ';'];
    let amp = vec!['&', 'a', 'm', 'p', ';'];
    let lt = vec!['&', 'l', 't', ';'];
    let gt = vec!['&', 'g', 't', ';'];
    let quot = vec!['&', 'q', 'u', 'o', 't', ';'];
    let one_space = vec![' '];
    let one_amp = vec!['&'];
    let one_lt = vec!['<'];
    let one_gt = vec!['>'];
    let one_quot = vec!['"'];
    assert(nbsp@ =~= seq!['&', 'n', 'b', 's', 'p', ';']);
    assert(amp@ =~= seq!['&', 'a', 'm', 'p', ';']);
    assert(lt@ =~= seq!['&', 'l', 't', ';']);
    assert(gt@ =~= seq!['&', 'g', 't', ';']);
    assert(quot@ =~= seq!['&', 'q', 'u', 'o', 't', ';']);
    assert(one_space@ =~= seq![' ']);
    assert(one_amp@ =~= seq!['&']);
    assert(one_lt@ =~= seq!['<']);
    assert(one_gt@ =~= seq!['>']);
    assert(one_quot@ =~= seq!['"']);
    let s1 = replace_chars(s, &nbsp, &one_space);
    let s2 = replace_chars(&s1, &amp, &one_amp);
    let s3 = replace_chars(&s2, &lt, &one_lt);
    let s4 = replace_chars(&s3, &gt, &one_gt);
    replace_chars(&s4, &quot, &one_quot)
}

/// Turns the HTML label of a drawio element into one line of visible text; an element
/// without a label is named "Unnamed".
pub fn to_nice_string(input: Option<&str>) -> (r: String)
    ensures
        r@ == nice_string(
            match input {
                Some(s) => Some(s@),
                None => None,
            },
        ),
{
    match input {
        None => unnamed_string(),
        Some(s) => {
            let chars = str_chars(s);
            let decoded = decode_xml_chars(&chars);
            let stripped = strip_tag_chars(&decoded);
            let text = decode_html_chars(&stripped);
            let words = collapse_chars(&text);
            string_from_chars(&words)
        },
    }
}

// ---------------------------------------------------------------------------
// Laws
// ---------------------------------------------------------------------------
/// Text on one line: white space only as single spaces between words.
pub open spec fn is_one_line(s: Seq<char>) -> bool {
    &&& forall|i: int| 0 <= i < s.len() && is_ws(#[trigger] s[i]) ==> s[i] == ' '
    &&& s.len() > 0 ==> s[0] != ' ' && s.last() != ' '
    &&& forall|i: int| 0 <= i < s.len() - 1 && #[trigger] s[i] == ' ' ==> s[i + 1] != ' '
}

proof fn lemma_collapse_scan_one_line(s: Seq<char>)
    ensures
        is_one_line(collapse_scan(s).0),
        collapse_scan(s).1 ==> collapse_scan(s).0.len() > 0,
    decreases s.len(),
{
    if s.len() > 0 {
        lemma_collapse_scan_one_line(s.drop_last());
        let (out, pending) = collapse_scan(s.drop_last());
        let c = s.last();
        if !is_ws(c) {
            let spaced = if pending {
                out.push(' ')
            } else {
                out
            };
            let r = spaced.push(c);
            assert(is_ws(' '));
            assert forall|i: int| 0 <= i < r.len() && is_ws(#[trigger] r[i]) implies r[i] == ' ' by {
                if i < out.len() {
                    assert(r[i] == out[i]);
                }
            }
            assert forall|i: int| 0 <= i < r.len() - 1 && #[trigger] r[i] == ' ' implies r[i + 1]
                != ' ' by {
                if i < out.len() - 1 {
                    assert(r[i] == out[i] && r[i + 1] == out[i + 1]);
                } else if i == out.len() - 1 {
                    assert(r[i] == out.last());
                }
            }
            if out.len() > 0 {
                assert(r[0] == out[0]);
            }
        }
    }
}

proof fn lemma_collapse_keeps_one_line(t: Seq<char>, k: int)
    requires
        is_one_line(t),
        0 <= k <= t.len(),
    ensures
        collapse_scan(t.take(k)) == (if k > 0 && t[k - 1] == ' ' {
            (t.take(k - 1), true)
        } else {
            (t.take(k), false)
        }),
    decreases k,
{
    if k > 0 {
        lemma_collapse_keeps_one_line(t, k - 1);
        let p = t.take(k);
        assert(p.drop_last() =~= t.take(k - 1));
        assert(p.last() == t[k - 1]);
        let c = t[k - 1];
        if is_ws(c) {
            assert(c == ' ');
            if k >= 2 {
                assert(t[k - 2] != ' ');
            }
        } else {
            if k >= 2 && t[k - 2] == ' ' {
                assert(t.take(k - 2).push(' ').push(c) =~= t.take(k));
                assert(t.take(k - 1).drop_last() =~= t.take(k - 2));
            } else {
                assert(t.take(k - 1).push(c) =~= t.take(k));
            }
        }
    } else {
        assert(t.take(0) =~= Seq::<char>::empty());
    }
}

/// Collapsing white space leaves text that is already on one line as it is.
pub proof fn lemma_collapse_fixes_one_line(t: Seq<char>)
    requires
        is_one_line(t),
    ensures
        collapse_whitespace(t) == t,
{
    lemma_collapse_keeps_one_line(t, t.len() as int);
    assert(t.take(t.len() as int) =~= t);
}

/// The name `to_nice_string` gives is always one line of text: no line break, no tab, no
/// leading or trailing space, and no two spaces in a row.
pub proof fn lemma_nice_string_is_one_line(input: Option<Seq<char>>)
    ensures
        is_one_line(nice_string(input)),
        !nice_string(input).contains('\n'),
{
    match input {
        Some(s) => {
            lemma_collapse_scan_one_line(
                decode_html_entities(strip_tags(decode_xml_entities(s))),
            );
        },
        None => {
            let u = unnamed();
            assert forall|i: int| 0 <= i < u.len() implies !is_ws(#[trigger] u[i]) by {
                assert(u[i] == 'U' || u[i] == 'n' || u[i] == 'a' || u[i] == 'm' || u[i] == 'e'
                    || u[i] == 'd');
            }
        },
    }
    let r = nice_string(input);
    if r.contains('\n') {
        let i = choose|i: int| 0 <= i < r.len() && r[i] == '\n';
        assert(is_ws(r[i]));
    }
}

proof fn lemma_replace_absent(s: Seq<char>, pat: Seq<char>, rep: Seq<char>)
    requires
        pat.len() > 0,
        !s.contains(pat[0]),
    ensures
        replace_all(s, pat, rep) == s,
    decreases s.len(),
{
    if s.len() > 0 {
        assert(!s.skip(1).contains(pat[0])) by {
            if s.skip(1).contains(pat[0]) {
                let j = choose|j: int| 0 <= j < s.skip(1).len() && s.skip(1)[j] == pat[0];
                assert(s[j + 1] == pat[0]);
            }
        }
        lemma_replace_absent(s.skip(1), pat, rep);
        if pat.len() <= s.len() {
            assert(s.subrange(0, pat.len() as int)[0] == s[0]);
            assert(s[0] != pat[0]);
        }
        assert(seq![s[0]] + s.skip(1) =~= s);
    }
}

proof fn lemma_scan_without_markup(s: Seq<char>)
    requires
        !s.contains('<'),
        !s.contains('>'),
    ensures
        tag_scan(s) == (TagScan { kept: s, inside: false, tag: seq![] }),
    decreases s.len(),
{
    if s.len() > 0 {
        let p = s.drop_last();
        assert(!p.contains('<') && !p.contains('>')) by {
            if p.contains('<') {
                let j = choose|j: int| 0 <= j < p.len() && p[j] == '<';
                assert(s[j] == '<');
            }
            if p.contains('>') {
                let j = choose|j: int| 0 <= j < p.len() && p[j] == '>';
                assert(s[j] == '>');
            }
        }
        lemma_scan_without_markup(p);
        assert(s[s.len() - 1] != '<' && s[s.len() - 1] != '>');
        assert(p.push(s.last()) =~= s);
    } else {
        assert(s =~= Seq::<char>::empty());
    }
}

/// A label without entities or markup (no `&`, `<` or `>`) keeps its text; only its white
/// space is collapsed.
pub proof fn lemma_plain_label_keeps_text(s: Seq<char>)
    requires
        !s.contains('&'),
        !s.contains('<'),
        !s.contains('>'),
    ensures
        nice_string(Some(s)) == collapse_whitespace(s),
{
    lemma_replace_absent(s, seq!['&', 'l', 't', ';'], seq!['<']);
    lemma_replace_absent(s, seq!['&', 'g', 't', ';'], seq!['>']);
    lemma_replace_absent(s, seq!['&', 'q', 'u', 'o', 't', ';'], seq!['"']);
    lemma_replace_absent(s, seq!['&', 'a', 'm', 'p', ';'], seq!['&']);
    lemma_replace_absent(s, seq!['&', 'a', 'p', 'o', 's', ';'], seq!['\'']);
    assert(decode_xml_entities(s) == s);
    lemma_scan_without_markup(s);
    assert(strip_tags(s) == s);
    lemma_replace_absent(s, seq!['&', 'n', 'b', 's', 'p', ';'], seq![' ']);
    assert(decode_html_entities(s) == s);
}

/// The name of a label is a fixed point: where it holds no `&`, `<` or `>`, naming it again
/// gives it back.
pub proof fn lemma_nice_string_idempotent(input: Option<Seq<char>>)
    requires
        !nice_string(input).contains('&'),
        !nice_string(input).contains('<'),
        !nice_string(input).contains('>'),
    ensures
        nice_string(Some(nice_string(input))) == nice_string(input),
{
    let n = nice_string(input);
    lemma_plain_label_keeps_text(n);
    lemma_nice_string_is_one_line(input);
    lemma_collapse_fixes_one_line(n);
}

} // verus!
