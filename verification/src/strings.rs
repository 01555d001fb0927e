//! The string-hash table builder: hashes each line of the game's string
//! list with CRC-32, keyed by the section comments that precede it, and
//! merges the labels back into the line list.
use crate::paths::str_eq;
use vstd::prelude::*;
use vstd::utf8::encode_utf8;

verus! {

/// The IEEE CRC-32 checksum of a byte sequence.
pub uninterp spec fn crc32_of(data: Seq<u8>) -> u32;

/// Relies on crc32fast::Hasher (new, update, finalize): the IEEE CRC-32
/// of the bytes, a function of the bytes alone.
#[verifier::external_body]
fn crc32(data: &[u8]) -> (r: u32)
    ensures
        r == crc32_of(data@),
{
    let mut hasher = crc32fast::Hasher::new();
    hasher.update(data);
    hasher.finalize()
}

/// The lower-case hex digit for a nibble.
pub open spec fn hex_digit(d: int) -> char {
    if d == 0 {
        '0'
    } else if d == 1 {
        '1'
    } else if d == 2 {
        '2'
    } else if d == 3 {
        '3'
    } else if d == 4 {
        '4'
    } else if d == 5 {
        '5'
    } else if d == 6 {
        '6'
    } else if d == 7 {
        '7'
    } else if d == 8 {
        '8'
    } else if d == 9 {
        '9'
    } else if d == 10 {
        'a'
    } else if d == 11 {
        'b'
    } else if d == 12 {
        'c'
    } else if d == 13 {
        'd'
    } else if d == 14 {
        'e'
    } else {
        'f'
    }
}

/// The eight lower-case hex digits of a 32-bit value, most significant
/// first.
pub open spec fn hex8(x: u32) -> Seq<char> {
    Seq::new(8, |i: int| hex_digit(((x >> (((7 - i) * 4) as u32)) & 0xF) as int))
}

fn hex_digit_str(nib: u32) -> (r: &'static str)
    requires
        nib < 16,
    ensures
        r@ == seq![hex_digit(nib as int)],
{
    proof {
        reveal_strlit("0");
        reveal_strlit("1");
        reveal_strlit("2");
        reveal_strlit("3");
        reveal_strlit("4");
        reveal_strlit("5");
        reveal_strlit("6");
        reveal_strlit("7");
        reveal_strlit("8");
        reveal_strlit("9");
        reveal_strlit("a");
        reveal_strlit("b");
        reveal_strlit("c");
        reveal_strlit("d");
        reveal_strlit("e");
        reveal_strlit("f");
    }
    let r = if nib == 0 {
        "0"
    } else if nib == 1 {
        "1"
    } else if nib == 2 {
        "2"
    } else if nib == 3 {
        "3"
    } else if nib == 4 {
        "4"
    } else if nib == 5 {
        "5"
    } else if nib == 6 {
        "6"
    } else if nib == 7 {
        "7"
    } else if nib == 8 {
        "8"
    } else if nib == 9 {
        "9"
    } else if nib == 10 {
        "a"
    } else if nib == 11 {
        "b"
    } else if nib == 12 {
        "c"
    } else if nib == 13 {
        "d"
    } else if nib == 14 {
        "e"
    } else {
        "f"
    };
    proof {
        assert(r@ =~= seq![hex_digit(nib as int)]);
    }
    r
}

/// Renders a checksum as the label `0x` followed by its eight hex
/// digits.
pub fn hex_label(x: u32) -> (r: String)
    ensures
        r@ == "0x"@ + hex8(x),
{
    let mut out = String::from_str("0x");
    let mut i: usize = 0;
    while i < 8
        invariant
            i <= 8,
            out@ == "0x"@ + hex8(x).take(i as int),
        decreases 8 - i,
    {
        let shift: u32 = (7 - i as u32) * 4;
        let nib = (x >> shift) & 0xF;
        proof {
            assert((x >> shift) & 0xF < 16) by (bit_vector);
        }
        out.append(hex_digit_str(nib));
        proof {
            assert(hex8(x).take(i + 1) =~= hex8(x).take(i as int).push(hex8(x)[i as int]));
            assert(hex8(x)[i as int] == hex_digit(nib as int));
            assert(out@ =~= "0x"@ + hex8(x).take(i + 1));
        }
        i += 1;
    }
    proof {
        assert(hex8(x).take(8) =~= hex8(x));
    }
    out
}

/// The whitespace the line reader strips from both ends of a line:
/// the characters with the Unicode White_Space property.
pub open spec fn is_line_ws(c: char) -> bool {
    ||| c == ' '
    ||| c == '\t'
    ||| c == '\n'
    ||| c == '\u{000B}'
    ||| c == '\u{000C}'
    ||| c == '\r'
    ||| c == '\u{0085}'
    ||| c == '\u{00A0}'
    ||| c == '\u{1680}'
    ||| ('\u{2000}' <= c && c <= '\u{200A}')
    ||| c == '\u{2028}'
    ||| c == '\u{2029}'
    ||| c == '\u{202F}'
    ||| c == '\u{205F}'
    ||| c == '\u{3000}'
}

/// The characters stripped from both ends of a section comment.
pub open spec fn is_comment_mark(c: char) -> bool {
    c == ' ' || c == '#'
}

/// The sequence without its leading characters matching `pred`.
pub open spec fn trim_start_spec(s: Seq<char>, pred: spec_fn(char) -> bool) -> Seq<char>
    decreases s.len(),
{
    if s.len() > 0 && pred(s.first()) {
        trim_start_spec(s.drop_first(), pred)
    } else {
        s
    }
}

/// The sequence without its trailing characters matching `pred`.
pub open spec fn trim_end_spec(s: Seq<char>, pred: spec_fn(char) -> bool) -> Seq<char>
    decreases s.len(),
{
    if s.len() > 0 && pred(s.last()) {
        trim_end_spec(s.drop_last(), pred)
    } else {
        s
    }
}

/// The sequence without matching characters at either end.
pub open spec fn trim_spec(s: Seq<char>, pred: spec_fn(char) -> bool) -> Seq<char> {
    trim_end_spec(trim_start_spec(s, pred), pred)
}

/// A slice of `s` from `a` to `b` whose outer neighbours all match
/// `pred` and whose own ends do not is exactly the trimmed sequence.
proof fn lemma_trim_start_at(s: Seq<char>, pred: spec_fn(char) -> bool, a: int)
    requires
        0 <= a <= s.len(),
        forall|i: int| 0 <= i < a ==> pred(#[trigger] s[i]),
        a < s.len() ==> !pred(s[a]),
    ensures
        trim_start_spec(s, pred) == s.skip(a),
    decreases s.len(),
{
    if s.len() > 0 && pred(s.first()) {
        assert(a > 0);
        let s1 = s.drop_first();
        assert(forall|i: int| 0 <= i < a - 1 ==> pred(#[trigger] s1[i]));
        lemma_trim_start_at(s1, pred, a - 1);
        assert(s1.skip(a - 1) =~= s.skip(a));
    } else {
        if s.len() == 0 {
            assert(s.skip(a) =~= s);
        } else {
            assert(a == 0);
            assert(s.skip(0) =~= s);
        }
    }
}

proof fn lemma_trim_end_at(s: Seq<char>, pred: spec_fn(char) -> bool, b: int)
    requires
        0 <= b <= s.len(),
        forall|i: int| b <= i < s.len() ==> pred(#[trigger] s[i]),
        b > 0 ==> !pred(s[b - 1]),
    ensures
        trim_end_spec(s, pred) == s.take(b),
    decreases s.len(),
{
    if s.len() > 0 && pred(s.last()) {
        assert(b < s.len());
        let s1 = s.drop_last();
        assert(forall|i: int| b <= i < s1.len() ==> pred(#[trigger] s1[i]));
        lemma_trim_end_at(s1, pred, b);
        assert(s1.take(b) =~= s.take(b));
    } else {
        if s.len() == 0 {
            assert(s.take(b) =~= s);
        } else {
            assert(b == s.len());
            assert(s.take(b) =~= s);
        }
    }
}

fn is_ws_char(c: char) -> (r: bool)
    ensures
        r == is_line_ws(c),
{
    c == ' ' || c == '\t' || c == '\n' || c == '\u{000B}' || c == '\u{000C}' || c == '\r' || c
        == '\u{0085}' || c == '\u{00A0}' || c == '\u{1680}' || ('\u{2000}' <= c && c
        <= '\u{200A}') || c == '\u{2028}' || c == '\u{2029}' || c == '\u{202F}' || c
        == '\u{205F}' || c == '\u{3000}'
}

fn is_mark_char(c: char) -> (r: bool)
    ensures
        r == is_comment_mark(c),
{
    c == ' ' || c == '#'
}

/// Strips line whitespace from both ends.
pub fn trim_line(s: &str) -> (r: String)
    ensures
        r@ == trim_spec(s@, |c: char| is_line_ws(c)),
{
    let n = s.unicode_len();
    let mut a: usize = 0;
    while a < n && is_ws_char(s.get_char(a))
        invariant
            a <= n,
            n == s@.len(),
            forall|i: int| 0 <= i < a ==> is_line_ws(#[trigger] s@[i]),
        decreases n - a,
    {
        a += 1;
    }
    let mut b: usize = n;
    while b > a && is_ws_char(s.get_char(b - 1))
        invariant
            a <= b <= n,
            n == s@.len(),
            forall|i: int| b <= i < n ==> is_line_ws(#[trigger] s@[i]),
            forall|i: int| 0 <= i < a ==> is_line_ws(#[trigger] s@[i]),
            a < n ==> !is_line_ws(s@[a as int]),
        decreases b,
    {
        b -= 1;
    }
    let r = s.substring_char(a, b);
    proof {
        let pred = |c: char| is_line_ws(c);
        lemma_trim_start_at(s@, pred, a as int);
        let st = s@.skip(a as int);
        if b > a {
            lemma_trim_end_at(st, pred, b - a);
        } else {
            lemma_trim_end_at(st, pred, 0);
        }
        assert(s@.subrange(a as int, b as int) =~= st.take(b - a));
    }
    r.to_owned()
}

/// Strips spaces and hash marks from both ends of a comment line.
pub fn trim_comment(s: &str) -> (r: String)
    ensures
        r@ == trim_spec(s@, |c: char| is_comment_mark(c)),
{
    let n = s.unicode_len();
    let mut a: usize = 0;
    while a < n && is_mark_char(s.get_char(a))
        invariant
            a <= n,
            n == s@.len(),
            forall|i: int| 0 <= i < a ==> is_comment_mark(#[trigger] s@[i]),
        decreases n - a,
    {
        a += 1;
    }
    let mut b: usize = n;
    while b > a && is_mark_char(s.get_char(b - 1))
        invariant
            a <= b <= n,
            n == s@.len(),
            forall|i: int| b <= i < n ==> is_comment_mark(#[trigger] s@[i]),
            forall|i: int| 0 <= i < a ==> is_comment_mark(#[trigger] s@[i]),
            a < n ==> !is_comment_mark(s@[a as int]),
        decreases b,
    {
        b -= 1;
    }
    let r = s.substring_char(a, b);
    proof {
        let pred = |c: char| is_comment_mark(c);
        lemma_trim_start_at(s@, pred, a as int);
        let st = s@.skip(a as int);
        if b > a {
            lemma_trim_end_at(st, pred, b - a);
        } else {
            lemma_trim_end_at(st, pred, 0);
        }
        assert(s@.subrange(a as int, b as int) =~= st.take(b - a));
    }
    r.to_owned()
}

/// Whether a trimmed line is a section comment.
pub open spec fn is_comment(t: Seq<char>) -> bool {
    t.len() > 0 && t[0] == '#'
}

/// The section that is current after the given lines: the keyword of
/// the last section comment whose trimmed keyword was non-empty.
pub open spec fn section_after(lines: Seq<Seq<char>>) -> Option<Seq<char>>
    decreases lines.len(),
{
    if lines.len() == 0 {
        None
    } else {
        let t = trim_spec(lines.last(), |c: char| is_line_ws(c));
        if is_comment(t) {
            let kw = trim_spec(t, |c: char| is_comment_mark(c));
            if kw.len() > 0 {
                Some(kw)
            } else {
                section_after(lines.drop_last())
            }
        } else {
            section_after(lines.drop_last())
        }
    }
}

/// The label one line gets: a comment line gets none; any other line is
/// hashed — with the current section appended — and labelled with the
/// checksum in hex.
pub open spec fn line_label(t: Seq<char>, section: Option<Seq<char>>) -> Option<Seq<char>> {
    if is_comment(t) {
        None
    } else {
        let to_hash = t + match section {
            Some(kw) => kw,
            None => Seq::empty(),
        };
        Some("0x"@ + hex8(crc32_of(encode_utf8(to_hash))))
    }
}

/// The labels of all lines, in order.
pub open spec fn hashes_spec(lines: Seq<Seq<char>>) -> Seq<Option<Seq<char>>>
    decreases lines.len(),
{
    if lines.len() == 0 {
        Seq::empty()
    } else {
        hashes_spec(lines.drop_last()).push(
            line_label(
                trim_spec(lines.last(), |c: char| is_line_ws(c)),
                section_after(lines.drop_last()),
            ),
        )
    }
}

/// The view of a stored label list.
pub open spec fn labels_view(hashes: Seq<Option<String>>) -> Seq<Option<Seq<char>>> {
    hashes.map_values(
        |h: Option<String>|
            match h {
                Some(s) => Some(s@),
                None => None,
            },
    )
}

/// Builds hash labels for the game's string lines, tracking section
/// comments as it goes.
pub struct StringHasher {
    pub hashes: Vec<Option<String>>,
}

impl StringHasher {
    /// Hashes every line of the list.
    pub fn from_lines(lines: &Vec<String>) -> (r: StringHasher)
        ensures
            labels_view(r.hashes@) == hashes_spec(lines.deep_view()),
            r.hashes@.len() == lines@.len(),
    {
        let ghost lv = lines.deep_view();
        let mut hashes: Vec<Option<String>> = Vec::new();
        let mut current_section: Option<String> = None;
        let mut i: usize = 0;
        while i < lines.len()
            invariant
                i <= lines@.len(),
                lv == lines.deep_view(),
                hashes@.len() == i,
                labels_view(hashes@) == hashes_spec(lv.take(i as int)),
                match current_section {
                    Some(kw) => section_after(lv.take(i as int)) == Some(kw@),
                    None => section_after(lv.take(i as int)) is None,
                },
            decreases lines@.len() - i,
        {
            proof {
                assert(lv.take(i + 1).drop_last() =~= lv.take(i as int));
                assert(lv.take(i + 1).last() == lv[i as int]);
            }
            let t = trim_line(lines[i].as_str());
            let tn = t.as_str().unicode_len();
            let is_comment_line = tn > 0 && t.as_str().get_char(0) == '#';
            let ghost before = labels_view(hashes@);
            if is_comment_line {
                let kw = trim_comment(t.as_str());
                if kw.as_str().unicode_len() > 0 {
                    current_section = Some(kw);
                }
                hashes.push(None);
                proof {
                    assert(labels_view(hashes@) =~= before.push(
                        line_label(
                            trim_spec(lv[i as int], |c: char| is_line_ws(c)),
                            section_after(lv.take(i as int)),
                        ),
                    ));
                    assert(labels_view(hashes@) =~= hashes_spec(lv.take(i + 1)));
                }
            } else {
                let mut to_hash = t;
                match &current_section {
                    Some(kw) => {
                        to_hash.append(kw.as_str());
                    },
                    None => {},
                }
                let checksum = crc32(to_hash.as_str().as_bytes());
                let label = hex_label(checksum);
                proof {
                    let tt = trim_spec(lv[i as int], |c: char| is_line_ws(c));
                    let sect = section_after(lv.take(i as int));
                    assert(to_hash@ =~= tt + match sect {
                        Some(kw) => kw,
                        None => Seq::<char>::empty(),
                    });
                    assert(label@ == line_label(tt, sect)->Some_0);
                }
                hashes.push(Some(label));
                proof {
                    assert(labels_view(hashes@) =~= before.push(
                        line_label(
                            trim_spec(lv[i as int], |c: char| is_line_ws(c)),
                            section_after(lv.take(i as int)),
                        ),
                    ));
                    assert(labels_view(hashes@) =~= hashes_spec(lv.take(i + 1)));
                }
            }
            i += 1;
        }
        proof {
            assert(lv.take(lv.len() as int) =~= lv);
        }
        StringHasher { hashes }
    }

    /// Renders the merged list: each labelled line as `<label>: <line>`,
    /// each unlabelled one verbatim, one per line.
    pub fn merge_hashes(&self, lines: &Vec<String>) -> (r: String)
        requires
            lines@.len() == self.hashes@.len(),
        ensures
            r@ == merged_spec(labels_view(self.hashes@), lines.deep_view()),
    {
        let ghost hv = labels_view(self.hashes@);
        let ghost lv = lines.deep_view();
        let mut out = String::new();
        let mut i: usize = 0;
        while i < lines.len()
            invariant
                i <= lines@.len(),
                lines@.len() == self.hashes@.len(),
                hv == labels_view(self.hashes@),
                lv == lines.deep_view(),
                out@ == merged_spec(hv.take(i as int), lv.take(i as int)),
            decreases lines@.len() - i,
        {
            proof {
                assert(hv.take(i + 1).drop_last() =~= hv.take(i as int));
                assert(lv.take(i + 1).drop_last() =~= lv.take(i as int));
                assert(hv.take(i + 1).last() == hv[i as int]);
                assert(lv.take(i + 1).last() == lv[i as int]);
            }
            match &self.hashes[i] {
                Some(h) => {
                    out.append(h.as_str());
                    out.append(": ");
                },
                None => {},
            }
            out.append(lines[i].as_str());
            out.append("\n");
            proof {
                assert(out@ =~= merged_spec(hv.take(i + 1), lv.take(i + 1)));
            }
            i += 1;
        }
        proof {
            assert(hv.take(hv.len() as int) =~= hv);
            assert(lv.take(lv.len() as int) =~= lv);
        }
        out
    }
}

/// The merged rendering of labels and lines.
pub open spec fn merged_spec(hashes: Seq<Option<Seq<char>>>, lines: Seq<Seq<char>>) -> Seq<char>
    recommends
        hashes.len() == lines.len(),
    decreases lines.len(),
{
    if lines.len() == 0 || hashes.len() != lines.len() {
        Seq::empty()
    } else {
        merged_spec(hashes.drop_last(), lines.drop_last()) + match hashes.last() {
            Some(h) => h + ": "@ + lines.last() + "\n"@,
            None => lines.last() + "\n"@,
        }
    }
}

} // verus!
