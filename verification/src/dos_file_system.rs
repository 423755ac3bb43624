use crate::dos_error_codes::DosErrorCode;
use std::collections::VecDeque;
use vstd::prelude::*;
use vstd::string::StrSliceExecFns;

verus! {

// ---------------------------------------------------------------------------
// ASCII helpers
// ---------------------------------------------------------------------------

/// ASCII upper-casing of a single byte.
pub open spec fn upper_u8(b: u8) -> u8 {
    if 97 <= b <= 122 {
        (b - 32) as u8
    } else {
        b
    }
}

fn to_upper_u8(b: u8) -> (r: u8)
    ensures
        r == upper_u8(b),
{
    if 97 <= b && b <= 122 {
        b - 32
    } else {
        b
    }
}

/// How a host-name character is carried into an 8.3 name: characters above
/// 255 become `_`, the rest are upper-cased bytes.
pub open spec fn transcode_char(c: char) -> u8 {
    if c as u32 <= 255 {
        upper_u8((c as u32) as u8)
    } else {
        95
    }
}

/// Byte transcription of a whole host name.
pub open spec fn spec_transcode(s: Seq<char>) -> Seq<u8> {
    s.map_values(|c: char| transcode_char(c))
}

fn transcode_chars(s: &Vec<char>) -> (r: Vec<u8>)
    ensures
        r@ == spec_transcode(s@),
{
    let mut r: Vec<u8> = Vec::new();
    let mut i: usize = 0;
    while i < s.len()
        invariant
            i <= s@.len(),
            r@.len() == i,
            forall|j: int| 0 <= j < i ==> r@[j] == transcode_char(s@[j]),
        decreases s@.len() - i,
    {
        let c = s[i];
        let cu = c as u32;
        if cu <= 255 {
            r.push(to_upper_u8(cu as u8));
        } else {
            r.push(95);
        }
        i += 1;
    }
    proof {
        assert(r@ =~= spec_transcode(s@));
    }
    r
}

/// The characters of a string slice, in order.
pub fn str_to_chars(s: &str) -> (r: Vec<char>)
    ensures
        r@ == s@,
{
    let n = s.unicode_len();
    let mut r: Vec<char> = Vec::new();
    let mut i: usize = 0;
    while i < n
        invariant
            n == s@.len(),
            i <= n,
            r@.len() == i,
            forall|j: int| 0 <= j < i ==> r@[j] == s@[j],
        decreases n - i,
    {
        r.push(s.get_char(i));
        i += 1;
    }
    proof {
        assert(r@ =~= s@);
    }
    r
}

fn copy_range(s: &[u8], from: usize, to: usize) -> (r: Vec<u8>)
    requires
        from <= to <= s@.len(),
    ensures
        r@ == s@.subrange(from as int, to as int),
{
    let mut r: Vec<u8> = Vec::new();
    let mut i: usize = from;
    while i < to
        invariant
            from <= i <= to <= s@.len(),
            r@.len() == i - from,
            forall|j: int| 0 <= j < i - from ==> r@[j] == s@[from + j],
        decreases to - i,
    {
        r.push(s[i]);
        i += 1;
    }
    proof {
        assert(r@ =~= s@.subrange(from as int, to as int));
    }
    r
}

// ---------------------------------------------------------------------------
// Splitting a file name into title and extension
// ---------------------------------------------------------------------------

/// Index of the last `.` in `s`, if any.
pub open spec fn last_dot(s: Seq<u8>) -> Option<int>
    decreases s.len(),
{
    if s.len() == 0 {
        None
    } else if s[s.len() - 1] == 46 {
        Some(s.len() - 1)
    } else {
        last_dot(s.drop_last())
    }
}

proof fn lemma_last_dot_found(s: Seq<u8>, p: int)
    requires
        0 <= p < s.len(),
        s[p] == 46,
        forall|k: int| p < k < s.len() ==> s[k] != 46,
    ensures
        last_dot(s) == Some(p),
    decreases s.len(),
{
    if p == s.len() - 1 {
    } else {
        assert(s.drop_last()[p] == 46);
        lemma_last_dot_found(s.drop_last(), p);
    }
}

proof fn lemma_last_dot_none(s: Seq<u8>)
    requires
        forall|k: int| 0 <= k < s.len() ==> s[k] != 46,
    ensures
        last_dot(s) is None,
    decreases s.len(),
{
    if s.len() > 0 {
        lemma_last_dot_none(s.drop_last());
    }
}

/// Splits a name at its last dot. The part after the dot is kept as the
/// extension, clipped to its first three bytes when longer; a name without a
/// dot has no extension.
pub open spec fn spec_split(s: Seq<u8>) -> (Seq<u8>, Option<Seq<u8>>) {
    match last_dot(s) {
        None => (s, None),
        Some(p) => {
            let after = s.subrange(p + 1, s.len() as int);
            if after.len() <= 3 {
                (s.subrange(0, p), Some(after))
            } else {
                (s.subrange(0, p), Some(after.subrange(0, 3)))
            }
        },
    }
}

/// Splits `filename` into `(title, extension)` at the last dot, as DOS 8.3
/// translation wants it.
pub fn split_filename(filename: &[u8]) -> (r: (Vec<u8>, Option<Vec<u8>>))
    ensures
        r.0@ == spec_split(filename@).0,
        r.1.deep_view() == spec_split(filename@).1,
{
    let n = filename.len();
    let mut j: usize = n;
    while j > 0
        invariant
            j <= n,
            n == filename@.len(),
            forall|k: int| j <= k < n ==> filename@[k] != 46,
        decreases j,
    {
        if filename[j - 1] == 46 {
            let p = j - 1;
            proof {
                lemma_last_dot_found(filename@, p as int);
            }
            let title = copy_range(filename, 0, p);
            let after_len = n - p - 1;
            let ext = if after_len <= 3 {
                copy_range(filename, p + 1, n)
            } else {
                let e = copy_range(filename, p + 1, p + 4);
                proof {
                    assert(e@ =~= filename@.subrange(p + 1, n as int).subrange(0, 3));
                }
                e
            };
            return (title, Some(ext));
        }
        j = j - 1;
    }
    proof {
        lemma_last_dot_none(filename@);
    }
    let title = copy_range(filename, 0, n);
    proof {
        assert(title@ =~= filename@);
    }
    (title, None)
}

// ---------------------------------------------------------------------------
// Decimal rendering of collision indices
// ---------------------------------------------------------------------------

/// Decimal digits of `n`, most significant first.
pub open spec fn dec_digits(n: nat) -> Seq<u8>
    decreases n,
{
    if n < 10 {
        seq![(48 + n) as u8]
    } else {
        dec_digits(n / 10) + seq![(48 + n % 10) as u8]
    }
}

fn render_decimal(n: usize) -> (r: Vec<u8>)
    ensures
        r@ == dec_digits(n as nat),
    decreases n,
{
    if n < 10 {
        let mut r: Vec<u8> = Vec::new();
        r.push(48 + n as u8);
        proof {
            assert(r@ =~= dec_digits(n as nat));
        }
        r
    } else {
        let mut r = render_decimal(n / 10);
        r.push(48 + (n % 10) as u8);
        proof {
            assert(r@ =~= dec_digits(n as nat));
        }
        r
    }
}

/// Powers of ten.
pub open spec fn pow10(k: nat) -> nat
    decreases k,
{
    if k == 0 {
        1
    } else {
        10 * pow10((k - 1) as nat)
    }
}

proof fn lemma_dec_digits_len_bound(n: nat, k: nat)
    requires
        k >= 1,
        n < pow10(k),
    ensures
        dec_digits(n).len() <= k,
    decreases k,
{
    if n >= 10 {
        assert(pow10(k) == 10 * pow10((k - 1) as nat));
        assert(n / 10 < pow10((k - 1) as nat)) by (nonlinear_arith)
            requires
                n < 10 * pow10((k - 1) as nat),
        ;
        lemma_dec_digits_len_bound(n / 10, (k - 1) as nat);
    }
}

/// `n < 10^7` renders in at most seven digits.
pub proof fn lemma_dec_digits_len(n: nat)
    requires
        n < 10000000,
    ensures
        dec_digits(n).len() <= 7,
{
    reveal_with_fuel(pow10, 8);
    assert(pow10(7) == 10000000);
    lemma_dec_digits_len_bound(n, 7);
}

// ---------------------------------------------------------------------------
// 8.3 names
// ---------------------------------------------------------------------------

/// Mathematical value of an 8.3 name: an upper-case ASCII title and
/// extension.
pub ghost struct DosNameV {
    pub title: Seq<u8>,
    pub ext: Seq<u8>,
}

/// An 8.3 DOS file name: at most eight title bytes and three extension
/// bytes, upper-case ASCII.
#[derive(Debug, Clone)]
pub struct DosFileName {
    pub title: Vec<u8>,
    pub ext: Vec<u8>,
}

impl View for DosFileName {
    type V = DosNameV;

    open spec fn view(&self) -> DosNameV {
        DosNameV { title: self.title@, ext: self.ext@ }
    }
}

/// Upper-casing of a whole byte string.
pub open spec fn upper_seq(s: Seq<u8>) -> Seq<u8> {
    s.map_values(|b: u8| upper_u8(b))
}

/// The 8.3 name a guest-supplied DOS path parses to: split at the last dot
/// and upper-cased.
pub open spec fn spec_parse_dos(s: Seq<u8>) -> DosNameV {
    let t = spec_split(s).0;
    let e = match spec_split(s).1 {
        None => Seq::<u8>::empty(),
        Some(e) => e,
    };
    DosNameV { title: upper_seq(t), ext: upper_seq(e) }
}

/// The printable form of an 8.3 name: title, then `.` and the extension when
/// the extension is non-empty.
pub open spec fn spec_real_dos_name(n: DosNameV) -> Seq<u8> {
    if n.ext.len() == 0 {
        n.title
    } else {
        n.title + seq![46u8] + n.ext
    }
}

fn map_upper(v: Vec<u8>) -> (r: Vec<u8>)
    ensures
        r@ == upper_seq(v@),
{
    let mut r: Vec<u8> = Vec::new();
    let mut i: usize = 0;
    while i < v.len()
        invariant
            i <= v@.len(),
            r@.len() == i,
            forall|j: int| 0 <= j < i ==> r@[j] == upper_u8(v@[j]),
        decreases v@.len() - i,
    {
        r.push(to_upper_u8(v[i]));
        i += 1;
    }
    proof {
        assert(r@ =~= upper_seq(v@));
    }
    r
}

impl DosFileName {
    /// Parses a guest-supplied DOS path into an 8.3 name.
    pub fn parse(dos_filename: &[u8]) -> (r: DosFileName)
        ensures
            r@ == spec_parse_dos(dos_filename@),
    {
        let (title, ext) = split_filename(dos_filename);
        let ghost sext = spec_split(dos_filename@).1;
        let ext_bytes = match ext {
            Some(e) => {
                proof {
                    assert(sext == Some(e@));
                }
                e
            },
            None => {
                let v: Vec<u8> = Vec::new();
                proof {
                    assert(v@ =~= Seq::<u8>::empty());
                }
                v
            },
        };
        proof {
            assert(ext_bytes@ == (match sext {
                None => Seq::<u8>::empty(),
                Some(x) => x,
            }));
        }
        DosFileName { title: map_upper(title), ext: map_upper(ext_bytes) }
    }

    /// The printable `TITLE.EXT` form of this name.
    pub fn real_dos_name(&self) -> (r: Vec<u8>)
        ensures
            r@ == spec_real_dos_name(self@),
    {
        let mut result: Vec<u8> = Vec::new();
        let mut i: usize = 0;
        while i < self.title.len()
            invariant
                i <= self.title@.len(),
                result@ == self.title@.subrange(0, i as int),
            decreases self.title@.len() - i,
        {
            result.push(self.title[i]);
            proof {
                assert(result@ =~= self.title@.subrange(0, i + 1));
            }
            i += 1;
        }
        proof {
            assert(result@ =~= self.title@);
        }
        if self.ext.len() > 0 {
            result.push(46);
            let mut k: usize = 0;
            while k < self.ext.len()
                invariant
                    k <= self.ext@.len(),
                    result@ == self.title@ + seq![46u8] + self.ext@.subrange(0, k as int),
                decreases self.ext@.len() - k,
            {
                result.push(self.ext[k]);
                proof {
                    assert(result@ =~= self.title@ + seq![46u8] + self.ext@.subrange(0, k + 1));
                }
                k += 1;
            }
            proof {
                assert(result@ =~= self.title@ + seq![46u8] + self.ext@);
            }
        }
        result
    }
}

/// The 8.3 name synthesized for host name `host`, optionally carrying the
/// collision suffix `~extra`: transcode to upper-case ASCII, split at the
/// last dot, clip the title to eight and the extension to three bytes, and
/// make room for the suffix by clipping the title further.
pub open spec fn spec_dos_name(host: Seq<char>, extra: Option<nat>) -> DosNameV {
    let ascii = spec_transcode(host);
    let t = spec_split(ascii).0;
    let e = match spec_split(ascii).1 {
        None => Seq::<u8>::empty(),
        Some(e) => e,
    };
    let st = if t.len() <= 8 {
        t
    } else {
        t.subrange(0, 8)
    };
    let se = if e.len() <= 3 {
        e
    } else {
        e.subrange(0, 3)
    };
    let suffix = match extra {
        None => Seq::<u8>::empty(),
        Some(n) => seq![126u8] + dec_digits(n),
    };
    let total = st.len() + suffix.len();
    let clipped = if total > 8 {
        st.subrange(0, st.len() - (total - 8))
    } else {
        st
    };
    DosNameV { title: clipped + suffix, ext: se }
}

fn real_to_dos_name_chars(filename: &Vec<char>, extra_index: Option<usize>) -> (r: DosFileName)
    requires
        match extra_index {
            None => true,
            Some(n) => n < 10000000,
        },
    ensures
        r@ == spec_dos_name(
            filename@,
            match extra_index {
                None => None,
                Some(n) => Some(n as nat),
            },
        ),
{
    let ascii_name = transcode_chars(filename);
    let (file_title, file_ext) = split_filename(ascii_name.as_slice());
    let short_title = if file_title.len() <= 8 {
        file_title
    } else {
        copy_range(file_title.as_slice(), 0, 8)
    };
    let ghost sext = spec_split(ascii_name@).1;
    let short_ext_base = match file_ext {
        Some(e) => {
            proof {
                assert(sext == Some(e@));
            }
            e
        },
        None => {
            let v: Vec<u8> = Vec::new();
            proof {
                assert(v@ =~= Seq::<u8>::empty());
            }
            v
        },
    };
    proof {
        assert(short_ext_base@ == (match sext {
            None => Seq::<u8>::empty(),
            Some(x) => x,
        }));
    }
    let short_ext = if short_ext_base.len() <= 3 {
        short_ext_base
    } else {
        copy_range(short_ext_base.as_slice(), 0, 3)
    };

    let mut title_index_text: Vec<u8> = Vec::new();
    if let Some(n) = extra_index {
        title_index_text.push(126);
        let digits = render_decimal(n);
        let mut d: usize = 0;
        while d < digits.len()
            invariant
                d <= digits@.len(),
                title_index_text@ == seq![126u8] + digits@.subrange(0, d as int),
            decreases digits@.len() - d,
        {
            title_index_text.push(digits[d]);
            proof {
                assert(title_index_text@ =~= seq![126u8] + digits@.subrange(0, d + 1));
            }
            d += 1;
        }
        proof {
            assert(title_index_text@ =~= seq![126u8] + digits@);
            lemma_dec_digits_len(n as nat);
        }
    } else {
        proof {
            assert(title_index_text@ =~= Seq::<u8>::empty());
        }
    }
    proof {
        assert(title_index_text@.len() <= 8);
        assert(short_title@.len() <= 8);
    }
    let current_title_len = short_title.len() + title_index_text.len();
    let mut clipped = if current_title_len > 8 {
        copy_range(short_title.as_slice(), 0, short_title.len() - (current_title_len - 8))
    } else {
        short_title
    };
    let mut s: usize = 0;
    let ghost clipped0 = clipped@;
    while s < title_index_text.len()
        invariant
            s <= title_index_text@.len(),
            clipped@ == clipped0 + title_index_text@.subrange(0, s as int),
        decreases title_index_text@.len() - s,
    {
        clipped.push(title_index_text[s]);
        proof {
            assert(clipped@ =~= clipped0 + title_index_text@.subrange(0, s + 1));
        }
        s += 1;
    }
    proof {
        assert(clipped@ =~= clipped0 + title_index_text@);
        let expected = spec_dos_name(
            filename@,
            match extra_index {
                None => None,
                Some(n) => Some(n as nat),
            },
        );
        assert(clipped@ =~= expected.title);
        assert(short_ext@ =~= expected.ext);
    }
    DosFileName { title: clipped, ext: short_ext }
}

/// Synthesizes the 8.3 name for host file name `filename`; `extra_index`
/// carries the `~n` suffix used to resolve collisions.
pub fn real_to_dos_name(filename: &str, extra_index: Option<usize>) -> (r: DosFileName)
    requires
        match extra_index {
            None => true,
            Some(n) => n < 10000000,
        },
    ensures
        r@ == spec_dos_name(
            filename@,
            match extra_index {
                None => None,
                Some(n) => Some(n as nat),
            },
        ),
{
    let chars = str_to_chars(filename);
    real_to_dos_name_chars(&chars, extra_index)
}

// ---------------------------------------------------------------------------
// Wildcard matching
// ---------------------------------------------------------------------------

/// One field of a name matched against one field of a search specification,
/// walking the text left to right from pattern position `si`. `?` consumes
/// any single byte, a literal must equal the text byte, and `*` consumes
/// bytes until the pattern byte after it equals the current text byte; once a
/// `*` has been processed the pattern is also considered consumed one past
/// its end. The match succeeds only if the pattern is fully consumed, where
/// a single trailing `*` also counts as consumed — `*` matches the empty
/// run too.
pub open spec fn match_run(text: Seq<u8>, pat: Seq<u8>, si: int, star: bool) -> bool
    decreases text.len(),
{
    if text.len() == 0 {
        (if star {
            si + 1
        } else {
            si
        }) == pat.len() || (0 <= si && si == pat.len() - 1 && pat[si] == 42)
    } else if !(0 <= si < pat.len()) {
        false
    } else {
        let c = text[0];
        let sc = pat[si];
        if sc == 42 {
            let si2 = if si + 1 < pat.len() && pat[si + 1] == c {
                si + 1
            } else {
                si
            };
            match_run(text.drop_first(), pat, si2, true)
        } else if sc == 63 || sc == c {
            match_run(text.drop_first(), pat, si + 1, star)
        } else {
            false
        }
    }
}

/// Whether 8.3 name `f` matches search specification `pat`: title and
/// extension are matched independently, and a specification without an
/// extension accepts any extension.
pub open spec fn spec_matches(f: DosNameV, pat: Seq<u8>) -> bool {
    let pt = spec_split(pat).0;
    match spec_split(pat).1 {
        None => match_run(f.title, pt, 0, false),
        Some(pe) => match_run(f.title, pt, 0, false) && match_run(f.ext, pe, 0, false),
    }
}

proof fn lemma_match_step(text: Seq<u8>, pat: Seq<u8>, i: int, si: int, star: bool)
    requires
        0 <= i < text.len(),
        0 <= si,
    ensures
        match_run(text.skip(i), pat, si, star) == ({
            let c = text[i];
            if si >= pat.len() {
                false
            } else {
                let sc = pat[si];
                if sc == 42 {
                    let si2 = if si + 1 < pat.len() && pat[si + 1] == c {
                        si + 1
                    } else {
                        si
                    };
                    match_run(text.skip(i + 1), pat, si2, true)
                } else if sc == 63 || sc == c {
                    match_run(text.skip(i + 1), pat, si + 1, star)
                } else {
                    false
                }
            }
        }),
{
    assert(text.skip(i).len() > 0);
    assert(text.skip(i)[0] == text[i]);
    assert(text.skip(i).drop_first() =~= text.skip(i + 1));
}

fn match_against_spec(text: &[u8], pat: &[u8]) -> (r: bool)
    ensures
        r == match_run(text@, pat@, 0, false),
{
    let mut spec_pos: usize = 0;
    let mut just_processed_star = false;
    let mut i: usize = 0;
    proof {
        assert(text@.skip(0) =~= text@);
    }
    while i < text.len()
        invariant
            i <= text@.len(),
            spec_pos <= pat@.len(),
            match_run(text@, pat@, 0, false) == match_run(
                text@.skip(i as int),
                pat@,
                spec_pos as int,
                just_processed_star,
            ),
        decreases text@.len() - i,
    {
        proof {
            lemma_match_step(text@, pat@, i as int, spec_pos as int, just_processed_star);
        }
        let c = text[i];
        if spec_pos < pat.len() {
            let spec_char = pat[spec_pos];
            if spec_char == 42 {
                if spec_pos + 1 < pat.len() {
                    if c == pat[spec_pos + 1] {
                        spec_pos += 1;
                    }
                }
                just_processed_star = true;
            } else if spec_char == 63 {
                spec_pos += 1;
            } else if c == spec_char {
                spec_pos += 1;
            } else {
                return false;
            }
        } else {
            return false;
        }
        i += 1;
    }
    proof {
        assert(text@.skip(i as int) =~= Seq::<u8>::empty());
    }
    let consumed = if just_processed_star {
        pat.len() > 0 && spec_pos == pat.len() - 1
    } else {
        spec_pos == pat.len()
    };
    // a single trailing `*` matches the empty remainder of the text
    consumed || (spec_pos < pat.len() && spec_pos + 1 == pat.len() && pat[spec_pos] == 42)
}

/// Whether `filename` matches the DOS wildcard `search_spec`.
pub fn filename_matches_spec(filename: &DosFileName, search_spec: &[u8]) -> (r: bool)
    ensures
        r == spec_matches(filename@, search_spec@),
{
    let (spec_title, spec_ext) = split_filename(search_spec);
    let title_matches = match_against_spec(filename.title.as_slice(), spec_title.as_slice());
    let ext_matches = match spec_ext {
        Some(se) => {
            proof {
                assert(spec_split(search_spec@).1 == Some(se@));
            }
            match_against_spec(filename.ext.as_slice(), se.as_slice())
        },
        None => true,
    };
    title_matches && ext_matches
}

proof fn lemma_star_matches(text: Seq<u8>, star: bool)
    requires
        text.len() > 0,
    ensures
        match_run(text, seq![42u8], 0, star),
    decreases text.len(),
{
    reveal_with_fuel(match_run, 2);
    if text.drop_first().len() > 0 {
        lemma_star_matches(text.drop_first(), true);
    }
    assert(match_run(text, seq![42u8], 0, star) == match_run(text.drop_first(), seq![42u8], 0, true));
}

/// A name whose title is non-empty matches the specification `*.*`,
/// whatever its extension: each `*` accepts any field, the empty one
/// included.
pub proof fn lemma_matches_star_dot_star(f: DosNameV)
    requires
        f.title.len() > 0,
    ensures
        spec_matches(f, seq![42u8, 46u8, 42u8]),
{
    reveal_with_fuel(last_dot, 3);
    let pat = seq![42u8, 46u8, 42u8];
    assert(pat.drop_last() =~= seq![42u8, 46u8]);
    assert(last_dot(pat) == Some(1int));
    assert(pat.subrange(2, 3) =~= seq![42u8]);
    assert(pat.subrange(0, 1) =~= seq![42u8]);
    lemma_star_matches(f.title, false);
    if f.ext.len() > 0 {
        lemma_star_matches(f.ext, false);
    } else {
        assert(match_run(f.ext, seq![42u8], 0, false));
    }
}

// ---------------------------------------------------------------------------
// Small executable helpers on byte and character vectors
// ---------------------------------------------------------------------------

fn bytes_eq(a: &Vec<u8>, b: &Vec<u8>) -> (r: bool)
    ensures
        r == (a@ == b@),
{
    if a.len() != b.len() {
        return false;
    }
    let mut i: usize = 0;
    while i < a.len()
        invariant
            a@.len() == b@.len(),
            i <= a@.len(),
            forall|j: int| 0 <= j < i ==> a@[j] == b@[j],
        decreases a@.len() - i,
    {
        if a[i] != b[i] {
            return false;
        }
        i += 1;
    }
    proof {
        assert(a@ =~= b@);
    }
    true
}

fn chars_eq(a: &Vec<char>, b: &Vec<char>) -> (r: bool)
    ensures
        r == (a@ == b@),
{
    if a.len() != b.len() {
        return false;
    }
    let mut i: usize = 0;
    while i < a.len()
        invariant
            a@.len() == b@.len(),
            i <= a@.len(),
            forall|j: int| 0 <= j < i ==> a@[j] == b@[j],
        decreases a@.len() - i,
    {
        if a[i] != b[i] {
            return false;
        }
        i += 1;
    }
    proof {
        assert(a@ =~= b@);
    }
    true
}

fn clone_bytes(v: &Vec<u8>) -> (r: Vec<u8>)
    ensures
        r@ == v@,
{
    let mut r: Vec<u8> = Vec::new();
    let mut i: usize = 0;
    while i < v.len()
        invariant
            i <= v@.len(),
            r@ == v@.subrange(0, i as int),
        decreases v@.len() - i,
    {
        r.push(v[i]);
        proof {
            assert(r@ =~= v@.subrange(0, i + 1));
        }
        i += 1;
    }
    proof {
        assert(r@ =~= v@);
    }
    r
}

fn clone_chars(v: &Vec<char>) -> (r: Vec<char>)
    ensures
        r@ == v@,
{
    let mut r: Vec<char> = Vec::new();
    let mut i: usize = 0;
    while i < v.len()
        invariant
            i <= v@.len(),
            r@ == v@.subrange(0, i as int),
        decreases v@.len() - i,
    {
        r.push(v[i]);
        proof {
            assert(r@ =~= v@.subrange(0, i + 1));
        }
        i += 1;
    }
    proof {
        assert(r@ =~= v@);
    }
    r
}

impl DosFileName {
    /// Whether two 8.3 names are byte-for-byte equal.
    pub fn same_name(&self, other: &DosFileName) -> (r: bool)
        ensures
            r == (self@ == other@),
    {
        bytes_eq(&self.title, &other.title) && bytes_eq(&self.ext, &other.ext)
    }

    /// A copy of this name.
    pub fn duplicate(&self) -> (r: DosFileName)
        ensures
            r@ == self@,
    {
        DosFileName { title: clone_bytes(&self.title), ext: clone_bytes(&self.ext) }
    }
}

// ---------------------------------------------------------------------------
// Directory listing cache
// ---------------------------------------------------------------------------

/// One host-name / 8.3-name association.
#[derive(Debug)]
pub struct CacheEntry {
    pub host: Vec<char>,
    pub dos: DosFileName,
}

/// Bidirectional host-name / 8.3-name cache for one host directory. Both
/// directions live in one association list whose two columns are each free
/// of duplicates, so the two mappings are inverses of each other.
#[derive(Debug)]
pub struct DirListingCache {
    pub entries: Vec<CacheEntry>,
}

/// Index of the first pair whose host name is `h`, or -1.
pub open spec fn host_index(c: Seq<(Seq<char>, DosNameV)>, h: Seq<char>) -> int
    decreases c.len(),
{
    if c.len() == 0 {
        -1
    } else if c[0].0 == h {
        0
    } else {
        let r = host_index(c.drop_first(), h);
        if r == -1 {
            -1
        } else {
            r + 1
        }
    }
}

/// Index of the first pair whose 8.3 name is `d`, or -1.
pub open spec fn dos_index(c: Seq<(Seq<char>, DosNameV)>, d: DosNameV) -> int
    decreases c.len(),
{
    if c.len() == 0 {
        -1
    } else if c[0].1 == d {
        0
    } else {
        let r = dos_index(c.drop_first(), d);
        if r == -1 {
            -1
        } else {
            r + 1
        }
    }
}

/// Both columns of the cache are free of duplicates.
pub open spec fn cache_wf(c: Seq<(Seq<char>, DosNameV)>) -> bool {
    forall|i: int, j: int|
        0 <= i < j < c.len() ==> #[trigger] c[i].0 != #[trigger] c[j].0 && c[i].1 != c[j].1
}

proof fn lemma_host_index_found(c: Seq<(Seq<char>, DosNameV)>, h: Seq<char>, i: int)
    requires
        0 <= i < c.len(),
        c[i].0 == h,
        forall|k: int| 0 <= k < i ==> c[k].0 != h,
    ensures
        host_index(c, h) == i,
    decreases c.len(),
{
    if i > 0 {
        lemma_host_index_found(c.drop_first(), h, i - 1);
    }
}

proof fn lemma_host_index_none(c: Seq<(Seq<char>, DosNameV)>, h: Seq<char>)
    requires
        forall|k: int| 0 <= k < c.len() ==> c[k].0 != h,
    ensures
        host_index(c, h) == -1,
    decreases c.len(),
{
    if c.len() > 0 {
        lemma_host_index_none(c.drop_first(), h);
    }
}

/// What a host-name lookup result means: a found index holds the name, an
/// absent name occurs nowhere.
pub proof fn lemma_host_index_char(c: Seq<(Seq<char>, DosNameV)>, h: Seq<char>)
    ensures
        host_index(c, h) == -1 ==> forall|k: int| 0 <= k < c.len() ==> c[k].0 != h,
        host_index(c, h) != -1 ==> 0 <= host_index(c, h) < c.len() && c[host_index(c, h)].0 == h,
    decreases c.len(),
{
    if c.len() > 0 {
        lemma_host_index_char(c.drop_first(), h);
        if host_index(c, h) == -1 {
            assert forall|k: int| 0 <= k < c.len() implies c[k].0 != h by {
                if k > 0 {
                    assert(c.drop_first()[k - 1] == c[k]);
                }
            }
        }
    }
}

proof fn lemma_dos_index_found(c: Seq<(Seq<char>, DosNameV)>, d: DosNameV, i: int)
    requires
        0 <= i < c.len(),
        c[i].1 == d,
        forall|k: int| 0 <= k < i ==> c[k].1 != d,
    ensures
        dos_index(c, d) == i,
    decreases c.len(),
{
    if i > 0 {
        lemma_dos_index_found(c.drop_first(), d, i - 1);
    }
}

proof fn lemma_dos_index_none(c: Seq<(Seq<char>, DosNameV)>, d: DosNameV)
    requires
        forall|k: int| 0 <= k < c.len() ==> c[k].1 != d,
    ensures
        dos_index(c, d) == -1,
    decreases c.len(),
{
    if c.len() > 0 {
        lemma_dos_index_none(c.drop_first(), d);
    }
}

/// What an 8.3-name lookup result means.
pub proof fn lemma_dos_index_char(c: Seq<(Seq<char>, DosNameV)>, d: DosNameV)
    ensures
        dos_index(c, d) == -1 ==> forall|k: int| 0 <= k < c.len() ==> c[k].1 != d,
        dos_index(c, d) != -1 ==> 0 <= dos_index(c, d) < c.len() && c[dos_index(c, d)].1 == d,
    decreases c.len(),
{
    if c.len() > 0 {
        lemma_dos_index_char(c.drop_first(), d);
        if dos_index(c, d) == -1 {
            assert forall|k: int| 0 <= k < c.len() implies c[k].1 != d by {
                if k > 0 {
                    assert(c.drop_first()[k - 1] == c[k]);
                }
            }
        }
    }
}

/// The cache is a bijection: looking up either component of any stored pair
/// finds exactly that pair, so the two directions are inverses.
pub proof fn lemma_cache_bijection(c: Seq<(Seq<char>, DosNameV)>, i: int)
    requires
        cache_wf(c),
        0 <= i < c.len(),
    ensures
        host_index(c, c[i].0) == i,
        dos_index(c, c[i].1) == i,
{
    assert forall|k: int| 0 <= k < i implies c[k].0 != c[i].0 && c[k].1 != c[i].1 by {
        assert(c[k].0 != c[i].0 && c[k].1 != c[i].1);
    }
    lemma_host_index_found(c, c[i].0, i);
    lemma_dos_index_found(c, c[i].1, i);
}

/// The candidate 8.3 name for `host` at collision round `n`; round 0 carries
/// no suffix.
pub open spec fn cand_name(host: Seq<char>, n: nat) -> DosNameV {
    if n == 0 {
        spec_dos_name(host, None)
    } else {
        spec_dos_name(host, Some(n))
    }
}

/// The first candidate for `host`, from round `n` on, whose 8.3 name is not
/// yet cached; gives up after `fuel` rounds (more rounds than cache entries
/// always suffice, since distinct rounds give distinct suffixed names).
pub open spec fn pick_dos_name(
    c: Seq<(Seq<char>, DosNameV)>,
    host: Seq<char>,
    n: nat,
    fuel: nat,
) -> DosNameV
    decreases fuel,
{
    let cand = cand_name(host, n);
    if dos_index(c, cand) == -1 || fuel == 0 {
        cand
    } else {
        pick_dos_name(c, host, n + 1, (fuel - 1) as nat)
    }
}

/// The cache and result after asking for the 8.3 name of host name `host`: a
/// cached host name keeps the cache and returns its pair; a new one gets the
/// first free candidate and both directions are recorded.
pub open spec fn get_dos_name_spec(c: Seq<(Seq<char>, DosNameV)>, host: Seq<char>) -> (
    Seq<(Seq<char>, DosNameV)>,
    DosNameV,
) {
    if host_index(c, host) >= 0 {
        (c, c[host_index(c, host)].1)
    } else {
        let picked = pick_dos_name(c, host, 0, (c.len() + 1) as nat);
        if dos_index(c, picked) == -1 {
            (c.push((host, picked)), picked)
        } else {
            (c, picked)
        }
    }
}

/// Index of the last `~` in a byte string, if any.
pub open spec fn last_tilde(s: Seq<u8>) -> Option<int>
    decreases s.len(),
{
    if s.len() == 0 {
        None
    } else if s[s.len() - 1] == 126 {
        Some(s.len() - 1)
    } else {
        last_tilde(s.drop_last())
    }
}

proof fn lemma_last_tilde_found(s: Seq<u8>, p: int)
    requires
        0 <= p < s.len(),
        s[p] == 126,
        forall|k: int| p < k < s.len() ==> s[k] != 126,
    ensures
        last_tilde(s) == Some(p),
    decreases s.len(),
{
    if p == s.len() - 1 {
    } else {
        assert(s.drop_last()[p] == 126);
        lemma_last_tilde_found(s.drop_last(), p);
    }
}

proof fn lemma_dec_digits_are_digits(n: nat)
    ensures
        dec_digits(n).len() >= 1,
        forall|i: int| 0 <= i < dec_digits(n).len() ==> 48 <= #[trigger] dec_digits(n)[i] <= 57,
    decreases n,
{
    if n >= 10 {
        lemma_dec_digits_are_digits(n / 10);
    }
}

/// The number a digit string denotes, most significant digit first.
pub open spec fn dec_val(d: Seq<u8>) -> int
    decreases d.len(),
{
    if d.len() == 0 {
        0
    } else {
        dec_val(d.drop_last()) * 10 + (d[d.len() - 1] - 48)
    }
}

proof fn lemma_dec_val_inverse(n: nat)
    ensures
        dec_val(dec_digits(n)) == n,
    decreases n,
{
    if n < 10 {
        assert(dec_digits(n).drop_last() =~= Seq::<u8>::empty());
        assert(dec_digits(n)[dec_digits(n).len() - 1] == (48 + n) as u8);
        assert(dec_val(dec_digits(n)) == dec_val(dec_digits(n).drop_last()) * 10 + ((48
            + n) as u8 - 48));
    } else {
        lemma_dec_val_inverse(n / 10);
        assert(dec_digits(n).drop_last() =~= dec_digits(n / 10));
        assert(dec_digits(n)[dec_digits(n).len() - 1] == (48 + n % 10) as u8);
        assert(dec_val(dec_digits(n)) == dec_val(dec_digits(n).drop_last()) * 10 + ((48 + n
            % 10) as u8 - 48));
    }
}

/// Distinct collision rounds synthesize distinct candidate names: the round
/// number can be read back out of the digits after the title's last `~`.
pub proof fn lemma_cand_injective(host: Seq<char>, n1: nat, n2: nat)
    requires
        n1 >= 1,
        n2 >= 1,
        n1 != n2,
    ensures
        cand_name(host, n1) != cand_name(host, n2),
{
    if cand_name(host, n1) == cand_name(host, n2) {
        let t = cand_name(host, n1).title;
        let d1 = dec_digits(n1);
        let d2 = dec_digits(n2);
        lemma_dec_digits_are_digits(n1);
        lemma_dec_digits_are_digits(n2);
        let p1 = (t.len() - d1.len() - 1) as int;
        let p2 = (t.len() - d2.len() - 1) as int;
        assert(forall|i: int| 0 <= i < d1.len() ==> t[p1 + 1 + i] == d1[i]);
        assert(forall|i: int| 0 <= i < d2.len() ==> t[p2 + 1 + i] == d2[i]);
        assert(t[p1] == 126 && forall|k: int| p1 < k < t.len() ==> t[k] != 126);
        assert(t[p2] == 126 && forall|k: int| p2 < k < t.len() ==> t[k] != 126);
        lemma_last_tilde_found(t, p1);
        lemma_last_tilde_found(t, p2);
        assert(p1 == p2);
        assert(d1 =~= d2);
        lemma_dec_val_inverse(n1);
        lemma_dec_val_inverse(n2);
    }
}

/// The set of cache indices the first `k` suffixed candidates collide with.
pub open spec fn collision_index_set(
    c: Seq<(Seq<char>, DosNameV)>,
    host: Seq<char>,
    k: int,
) -> Set<int> {
    Set::new(
        |i: int|
            exists|n: int|
                1 <= n <= k && dos_index(c, #[trigger] cand_name(host, n as nat)) == i,
    )
}

proof fn lemma_collision_index_set_card(c: Seq<(Seq<char>, DosNameV)>, host: Seq<char>, k: int)
    requires
        cache_wf(c),
        k >= 0,
        forall|n: int| 1 <= n <= k ==> dos_index(c, #[trigger] cand_name(host, n as nat)) >= 0,
    ensures
        collision_index_set(c, host, k).finite(),
        collision_index_set(c, host, k).len() == k,
        collision_index_set(c, host, k).subset_of(
            vstd::set_lib::set_int_range(0, c.len() as int),
        ),
    decreases k,
{
    if k == 0 {
        assert(collision_index_set(c, host, 0) =~= Set::<int>::empty());
    } else {
        lemma_collision_index_set_card(c, host, k - 1);
        let prev = collision_index_set(c, host, k - 1);
        let idx_k = dos_index(c, cand_name(host, k as nat));
        lemma_dos_index_char(c, cand_name(host, k as nat));
        assert(collision_index_set(c, host, k) =~= prev.insert(idx_k)) by {
            assert forall|i: int| collision_index_set(c, host, k).contains(i) implies prev.insert(
                idx_k,
            ).contains(i) by {
                let n = choose|n: int|
                    1 <= n <= k && dos_index(c, #[trigger] cand_name(host, n as nat)) == i;
                if n < k {
                    assert(prev.contains(i));
                }
            }
        }
        if prev.contains(idx_k) {
            let n = choose|n: int|
                1 <= n <= k - 1 && dos_index(c, #[trigger] cand_name(host, n as nat)) == idx_k;
            lemma_dos_index_char(c, cand_name(host, n as nat));
            assert(c[idx_k].1 == cand_name(host, n as nat));
            assert(c[idx_k].1 == cand_name(host, k as nat));
            lemma_cand_injective(host, n as nat, k as nat);
            assert(false);
        }
    }
}

proof fn lemma_pick_props(c: Seq<(Seq<char>, DosNameV)>, host: Seq<char>, n: nat, fuel: nat)
    ensures
        dos_index(c, pick_dos_name(c, host, n, fuel)) == -1 || (pick_dos_name(c, host, n, fuel)
            == cand_name(host, (n + fuel) as nat) && forall|k: int|
            n <= k < n + fuel ==> dos_index(c, #[trigger] cand_name(host, k as nat)) >= 0),
    decreases fuel,
{
    let cand = cand_name(host, n);
    if dos_index(c, cand) == -1 || fuel == 0 {
    } else {
        lemma_dos_index_char(c, cand);
        lemma_pick_props(c, host, (n + 1) as nat, (fuel - 1) as nat);
    }
}

/// A fresh 8.3 name is always found within one more try than the cache has
/// entries: distinct rounds give distinct candidates, and a cache with `k`
/// pairwise-distinct names cannot collide with `k + 1` distinct candidates.
/// The synthesizer therefore always records the name it hands out.
pub proof fn lemma_synthesized_name_is_fresh(c: Seq<(Seq<char>, DosNameV)>, host: Seq<char>)
    requires
        cache_wf(c),
    ensures
        dos_index(c, pick_dos_name(c, host, 0, (c.len() + 1) as nat)) == -1,
        host_index(c, host) < 0 ==> get_dos_name_spec(c, host).0 == c.push(
            (host, get_dos_name_spec(c, host).1),
        ),
{
    let len = c.len() as int;
    lemma_pick_props(c, host, 0, (c.len() + 1) as nat);
    let picked = pick_dos_name(c, host, 0, (c.len() + 1) as nat);
    if dos_index(c, picked) != -1 {
        assert(picked == cand_name(host, (len + 1) as nat));
        lemma_dos_index_char(c, picked);
        assert forall|n: int| 1 <= n <= len + 1 implies dos_index(
            c,
            #[trigger] cand_name(host, n as nat),
        ) >= 0 by {
            if n <= len {
                assert(0 <= n < 0 + (len + 1));
            }
        }
        lemma_collision_index_set_card(c, host, len + 1);
        vstd::set_lib::lemma_int_range(0, len);
        vstd::set_lib::lemma_len_subset(
            collision_index_set(c, host, len + 1),
            vstd::set_lib::set_int_range(0, len),
        );
        assert(false);
    }
}

/// The host name synthesized for an 8.3 name that no host file has yet: its
/// printable form, upper-cased, as characters.
pub open spec fn synth_host_name(d: DosNameV) -> Seq<char> {
    spec_real_dos_name(d).map_values(|b: u8| upper_u8(b) as char)
}

/// The cache and result after asking for the host name of 8.3 name `d`: a
/// cached 8.3 name returns its host pair; a new one is synthesized from the
/// 8.3 name itself and recorded when its host name is still free.
pub open spec fn get_real_name_spec(c: Seq<(Seq<char>, DosNameV)>, d: DosNameV) -> (
    Seq<(Seq<char>, DosNameV)>,
    Seq<char>,
) {
    if dos_index(c, d) >= 0 {
        (c, c[dos_index(c, d)].0)
    } else {
        let h = synth_host_name(d);
        if host_index(c, h) == -1 {
            (c.push((h, d)), h)
        } else {
            (c, h)
        }
    }
}

/// Asking for a host name's 8.3 name leaves the two directions inverse:
/// both lookups land on one pair that binds exactly that host name to the
/// returned 8.3 name.
pub proof fn lemma_get_dos_name_round_trip(c: Seq<(Seq<char>, DosNameV)>, host: Seq<char>)
    requires
        cache_wf(c),
    ensures
        ({
            let (c2, name) = get_dos_name_spec(c, host);
            &&& host_index(c2, host) >= 0
            &&& c2[host_index(c2, host)].1 == name
            &&& dos_index(c2, name) >= 0
            &&& c2[dos_index(c2, name)].0 == host
            &&& host_index(c2, host) == dos_index(c2, name)
        }),
{
    let (c2, name) = get_dos_name_spec(c, host);
    lemma_host_index_char(c, host);
    if host_index(c, host) >= 0 {
        lemma_cache_bijection(c, host_index(c, host));
    } else {
        lemma_synthesized_name_is_fresh(c, host);
        lemma_dos_index_char(c, name);
        assert(c2 =~= c.push((host, name)));
        lemma_host_index_found(c2, host, c.len() as int);
        lemma_dos_index_found(c2, name, c.len() as int);
    }
}

/// Asking for an 8.3 name's host name leaves the two directions inverse,
/// provided the 8.3 name is cached or its synthesized host name is still
/// free: both lookups then land on one pair binding exactly that 8.3 name
/// to the returned host name.
pub proof fn lemma_get_real_name_round_trip(c: Seq<(Seq<char>, DosNameV)>, d: DosNameV)
    requires
        cache_wf(c),
        dos_index(c, d) >= 0 || host_index(c, synth_host_name(d)) == -1,
    ensures
        ({
            let (c2, host) = get_real_name_spec(c, d);
            &&& dos_index(c2, d) >= 0
            &&& c2[dos_index(c2, d)].0 == host
            &&& host_index(c2, host) >= 0
            &&& c2[host_index(c2, host)].1 == d
            &&& dos_index(c2, d) == host_index(c2, host)
        }),
{
    let (c2, host) = get_real_name_spec(c, d);
    lemma_dos_index_char(c, d);
    if dos_index(c, d) >= 0 {
        lemma_cache_bijection(c, dos_index(c, d));
    } else {
        lemma_host_index_char(c, host);
        assert(c2 =~= c.push((host, d)));
        lemma_host_index_found(c2, host, c.len() as int);
        lemma_dos_index_found(c2, d, c.len() as int);
    }
}

impl View for DirListingCache {
    type V = Seq<(Seq<char>, DosNameV)>;

    open spec fn view(&self) -> Seq<(Seq<char>, DosNameV)> {
        self.entries@.map_values(|e: CacheEntry| (e.host@, e.dos@))
    }
}

impl DirListingCache {
    /// An empty cache.
    pub fn new() -> (r: DirListingCache)
        ensures
            r@ == Seq::<(Seq<char>, DosNameV)>::empty(),
            cache_wf(r@),
    {
        let r = DirListingCache { entries: Vec::new() };
        proof {
            assert(r@ =~= Seq::<(Seq<char>, DosNameV)>::empty());
        }
        r
    }

    fn find_host(&self, h: &Vec<char>) -> (r: Option<usize>)
        ensures
            host_index(self@, h@) == (match r {
                Some(i) => i as int,
                None => -1,
            }),
            r matches Some(i) ==> i < self@.len(),
    {
        let mut i: usize = 0;
        while i < self.entries.len()
            invariant
                i <= self@.len(),
                self@.len() == self.entries@.len(),
                forall|k: int| 0 <= k < i ==> self@[k].0 != h@,
            decreases self@.len() - i,
        {
            if chars_eq(&self.entries[i].host, h) {
                proof {
                    assert(self@[i as int].0 == h@);
                    lemma_host_index_found(self@, h@, i as int);
                }
                return Some(i);
            }
            proof {
                assert(self@[i as int].0 == self.entries@[i as int].host@);
            }
            i += 1;
        }
        proof {
            lemma_host_index_none(self@, h@);
        }
        None
    }

    fn find_dos(&self, d: &DosFileName) -> (r: Option<usize>)
        ensures
            dos_index(self@, d@) == (match r {
                Some(i) => i as int,
                None => -1,
            }),
            r matches Some(i) ==> i < self@.len(),
    {
        let mut i: usize = 0;
        while i < self.entries.len()
            invariant
                i <= self@.len(),
                self@.len() == self.entries@.len(),
                forall|k: int| 0 <= k < i ==> self@[k].1 != d@,
            decreases self@.len() - i,
        {
            if self.entries[i].dos.same_name(d) {
                proof {
                    assert(self@[i as int].1 == d@);
                    lemma_dos_index_found(self@, d@, i as int);
                }
                return Some(i);
            }
            proof {
                assert(self@[i as int].1 == self.entries@[i as int].dos@);
            }
            i += 1;
        }
        proof {
            lemma_dos_index_none(self@, d@);
        }
        None
    }

    /// The 8.3 name of host file name `real_filename`, synthesized and
    /// remembered on first sight, stable afterwards.
    pub fn get_dos_name(&mut self, real_filename: &str) -> (r: DosFileName)
        requires
            cache_wf(old(self)@),
            old(self)@.len() + 2 <= 10000000,
        ensures
            cache_wf(final(self)@),
            (final(self)@, r@) == get_dos_name_spec(old(self)@, real_filename@),
            final(self)@.len() <= old(self)@.len() + 1,
    {
        let chars = str_to_chars(real_filename);
        self.get_dos_name_chars(&chars)
    }

    /// As `get_dos_name`, for a host name already held as characters.
    pub fn get_dos_name_chars(&mut self, host: &Vec<char>) -> (r: DosFileName)
        requires
            cache_wf(old(self)@),
            old(self)@.len() + 2 <= 10000000,
        ensures
            cache_wf(final(self)@),
            (final(self)@, r@) == get_dos_name_spec(old(self)@, host@),
            final(self)@.len() <= old(self)@.len() + 1,
    {
        if let Some(i) = self.find_host(host) {
            return self.entries[i].dos.duplicate();
        }
        let limit = self.entries.len() + 1;
        let mut n: usize = 0;
        loop
            invariant
                n <= limit,
                limit == self@.len() + 1,
                cache_wf(self@),
                self@ == old(self)@,
                self@.len() + 2 <= 10000000,
                host_index(self@, host@) == -1,
                pick_dos_name(self@, host@, 0, limit as nat) == pick_dos_name(
                    self@,
                    host@,
                    n as nat,
                    (limit - n) as nat,
                ),
            decreases limit - n,
        {
            let cand = if n == 0 {
                real_to_dos_name_chars(host, None)
            } else {
                real_to_dos_name_chars(host, Some(n))
            };
            proof {
                assert(cand@ == cand_name(host@, n as nat));
            }
            let free = self.find_dos(&cand).is_none();
            // the limit only bounds the loop; a free candidate always turns
            // up within it, as lemma_synthesized_name_is_fresh shows
            if free || n == limit {
                proof {
                    assert(pick_dos_name(self@, host@, n as nat, (limit - n) as nat) == cand@);
                }
                if free {
                    let entry = CacheEntry { host: clone_chars(host), dos: cand.duplicate() };
                    let ghost pre = self@;
                    self.entries.push(entry);
                    proof {
                        assert(self@ =~= pre.push((host@, cand@)));
                        lemma_host_index_char(pre, host@);
                        lemma_dos_index_char(pre, cand@);
                        assert forall|i: int, j: int| 0 <= i < j < self@.len() implies #[trigger] self@[i].0
                            != #[trigger] self@[j].0 && self@[i].1 != self@[j].1 by {
                            if j == self@.len() - 1 {
                                assert(pre[i].0 != host@);
                                assert(pre[i].1 != cand@);
                            }
                        }
                    }
                }
                return cand;
            }
            proof {
                assert(pick_dos_name(self@, host@, n as nat, (limit - n) as nat) == pick_dos_name(
                    self@,
                    host@,
                    (n + 1) as nat,
                    (limit - n - 1) as nat,
                ));
            }
            n += 1;
        }
    }

    /// The host file name behind 8.3 name `dos_filename`; an 8.3 name never
    /// seen in the listing is treated as its own host name, for files the
    /// guest is about to create.
    pub fn get_real_name(&mut self, dos_filename: &DosFileName) -> (r: Vec<char>)
        requires
            cache_wf(old(self)@),
        ensures
            cache_wf(final(self)@),
            (final(self)@, r@) == get_real_name_spec(old(self)@, dos_filename@),
            final(self)@.len() <= old(self)@.len() + 1,
    {
        if let Some(i) = self.find_dos(dos_filename) {
            return clone_chars(&self.entries[i].host);
        }
        let printable = dos_filename.real_dos_name();
        let mut host: Vec<char> = Vec::new();
        let mut i: usize = 0;
        while i < printable.len()
            invariant
                i <= printable@.len(),
                host@.len() == i,
                forall|j: int| 0 <= j < i ==> host@[j] == upper_u8(printable@[j]) as char,
            decreases printable@.len() - i,
        {
            host.push(to_upper_u8(printable[i]) as char);
            i += 1;
        }
        proof {
            assert(host@ =~= synth_host_name(dos_filename@));
        }
        if self.find_host(&host).is_none() {
            let entry = CacheEntry { host: clone_chars(&host), dos: dos_filename.duplicate() };
            let ghost pre = self@;
            self.entries.push(entry);
            proof {
                assert(self@ =~= pre.push((host@, dos_filename@)));
                lemma_host_index_char(pre, host@);
                lemma_dos_index_char(pre, dos_filename@);
                assert forall|a: int, b: int| 0 <= a < b < self@.len() implies #[trigger] self@[a].0
                    != #[trigger] self@[b].0 && self@[a].1 != self@[b].1 by {
                    if b == self@.len() - 1 {
                        assert(pre[a].0 != host@);
                        assert(pre[a].1 != dos_filename@);
                    }
                }
            }
        }
        host
    }
}

// ---------------------------------------------------------------------------
// The DOS file system over a host directory
// ---------------------------------------------------------------------------

/// Access mode of DOS open (INT 21h AH=3Dh, AL).
#[derive(Debug, Clone, Copy, PartialEq, Eq, Structural)]
pub enum DosFileAccessMode {
    ReadOnly,
    WriteOnly,
    ReadWrite,
}

/// Origin of DOS seek (INT 21h AH=42h, AL).
#[derive(Debug, Clone, Copy, PartialEq, Eq, Structural)]
pub enum DosFileSeekOrigin {
    Start,
    Current,
    End,
}

/// The categories of host I/O failure the service layer distinguishes.
#[derive(Debug, Clone, Copy, PartialEq, Eq, Structural)]
pub enum HostIoError {
    NotFound,
    PermissionDenied,
    AlreadyExists,
    Other,
}

/// The DOS error code reported to the guest for each host I/O failure
/// category; unrecognized failures surface as `PathNotFound`.
pub open spec fn spec_host_error_to_dos(err: HostIoError) -> DosErrorCode {
    match err {
        HostIoError::NotFound => DosErrorCode::FileNotFound,
        HostIoError::PermissionDenied => DosErrorCode::AccessDenied,
        HostIoError::AlreadyExists => DosErrorCode::FileAlreadyExists,
        HostIoError::Other => DosErrorCode::PathNotFound,
    }
}

/// Maps a host I/O failure category to the DOS error code the guest sees.
pub fn std_file_error_to_dos_error(err: HostIoError) -> (r: DosErrorCode)
    ensures
        r == spec_host_error_to_dos(err),
{
    match err {
        HostIoError::NotFound => DosErrorCode::FileNotFound,
        HostIoError::PermissionDenied => DosErrorCode::AccessDenied,
        HostIoError::AlreadyExists => DosErrorCode::FileAlreadyExists,
        HostIoError::Other => DosErrorCode::PathNotFound,
    }
}

/// The interface of a DOS file system, as the interrupt layer and a host
/// frontend see it. A frontend may supply its own implementation; the
/// library provides `StandardDosFileSystem` over an in-memory image of one
/// host directory.
pub trait DosFileSystem {
    /// The implementation's internal well-formedness, preserved by every
    /// operation.
    spec fn fs_inv(&self) -> bool;

    /// Whether the implementation has room to resolve, and possibly record,
    /// one more name.
    spec fn resolve_ok(&self) -> bool;

    /// Whether `destination` can hold the result a search with
    /// `search_spec` would report first.
    spec fn find_first_ok(&self, destination: Seq<u8>, search_spec: Seq<u8>) -> bool;

    /// Whether `destination` can hold the next search result.
    spec fn find_next_ok(&self, destination: Seq<u8>) -> bool;

    /// Creates or truncates a file; returns a file handle.
    fn create(&mut self, filename: &[u8], attributes: u16) -> (r: Result<u16, DosErrorCode>)
        requires
            old(self).fs_inv(),
            old(self).resolve_ok(),
        ensures
            final(self).fs_inv(),
    ;

    /// Opens a file; returns a file handle.
    fn open(&mut self, filename: &[u8], access_mode: DosFileAccessMode) -> (r: Result<
        u16,
        DosErrorCode,
    >)
        requires
            old(self).fs_inv(),
            old(self).resolve_ok(),
        ensures
            final(self).fs_inv(),
    ;

    /// Closes a handle.
    fn close(&mut self, handle: u16) -> (r: Result<(), DosErrorCode>)
        requires
            old(self).fs_inv(),
        ensures
            final(self).fs_inv(),
    ;

    /// Reads up to `count` bytes; returns the bytes actually read.
    fn read(&mut self, handle: u16, count: u16) -> (r: Result<Vec<u8>, DosErrorCode>)
        requires
            old(self).fs_inv(),
        ensures
            final(self).fs_inv(),
    ;

    /// Writes `data`; returns the byte count written.
    fn write(&mut self, handle: u16, data: &[u8]) -> (r: Result<u16, DosErrorCode>)
        requires
            old(self).fs_inv(),
        ensures
            final(self).fs_inv(),
    ;

    /// Moves the file position; returns the new absolute position.
    fn seek(&mut self, handle: u16, offset: u32, origin: DosFileSeekOrigin) -> (r: Result<
        u32,
        DosErrorCode,
    >)
        requires
            old(self).fs_inv(),
        ensures
            final(self).fs_inv(),
    ;

    /// Collects the names matching `search_spec` and reports the first into
    /// the DTA `destination`.
    fn find_first_file(
        &mut self,
        destination: &mut Vec<u8>,
        attributes: u16,
        search_spec: &[u8],
    ) -> (r: Result<(), DosErrorCode>)
        requires
            old(self).fs_inv(),
            old(self).find_first_ok(old(destination)@, search_spec@),
        ensures
            final(self).fs_inv(),
    ;

    /// Reports the next collected name into the DTA `destination`.
    fn find_next_file(&mut self, destination: &mut Vec<u8>) -> (r: Result<(), DosErrorCode>)
        requires
            old(self).fs_inv(),
            old(self).find_next_ok(old(destination)@),
        ensures
            final(self).fs_inv(),
    ;
}

/// Mathematical state of one host file.
pub ghost struct HostFileV {
    pub name: Seq<char>,
    pub data: Seq<u8>,
}

/// One file of the host directory image: its host name and its bytes.
#[derive(Debug)]
pub struct HostFile {
    pub name: Vec<char>,
    pub data: Vec<u8>,
}

/// Mathematical state of one open handle slot.
pub ghost struct OpenFileV {
    pub dir_index: int,
    pub position: int,
    pub access_mode: DosFileAccessMode,
}

/// An open file: which directory entry it refers to, the read/write
/// position, and the mode it was opened with.
#[derive(Debug)]
pub struct OpenFile {
    pub dir_index: usize,
    pub position: u64,
    pub access_mode: DosFileAccessMode,
}

impl View for OpenFile {
    type V = OpenFileV;

    open spec fn view(&self) -> OpenFileV {
        OpenFileV {
            dir_index: self.dir_index as int,
            position: self.position as int,
            access_mode: self.access_mode,
        }
    }
}

/// Mathematical state of the whole file system.
pub ghost struct FsView {
    pub dir: Seq<HostFileV>,
    pub handles: Seq<Option<OpenFileV>>,
    pub cache: Seq<(Seq<char>, DosNameV)>,
    pub queue: Option<Seq<DosNameV>>,
}

/// DOS file services over an in-memory image of one host directory: a
/// handle table, the 8.3 name cache, and the find-first/find-next cursor.
/// The host shell loads the directory image and carries changes back to
/// disk.
#[derive(Debug)]
pub struct StandardDosFileSystem {
    pub host_dir: Vec<HostFile>,
    pub file_handles: Vec<Option<OpenFile>>,
    pub dir_listing: DirListingCache,
    pub current_file_queue: Option<VecDeque<DosFileName>>,
}

impl View for StandardDosFileSystem {
    type V = FsView;

    open spec fn view(&self) -> FsView {
        FsView {
            dir: self.host_dir@.map_values(|h: HostFile| HostFileV { name: h.name@, data: h.data@ }),
            handles: self.file_handles@.map_values(
                |s: Option<OpenFile>|
                    match s {
                        None => None,
                        Some(f) => Some(f@),
                    },
            ),
            cache: self.dir_listing@,
            queue: match self.current_file_queue {
                None => None,
                Some(q) => Some(q@.map_values(|d: DosFileName| d@)),
            },
        }
    }
}

/// Index of the first host file named `name`, or -1.
pub open spec fn dir_index_of(dir: Seq<HostFileV>, name: Seq<char>) -> int
    decreases dir.len(),
{
    if dir.len() == 0 {
        -1
    } else if dir[0].name == name {
        0
    } else {
        let r = dir_index_of(dir.drop_first(), name);
        if r == -1 {
            -1
        } else {
            r + 1
        }
    }
}

proof fn lemma_dir_index_found(dir: Seq<HostFileV>, name: Seq<char>, i: int)
    requires
        0 <= i < dir.len(),
        dir[i].name == name,
        forall|k: int| 0 <= k < i ==> dir[k].name != name,
    ensures
        dir_index_of(dir, name) == i,
    decreases dir.len(),
{
    if i > 0 {
        lemma_dir_index_found(dir.drop_first(), name, i - 1);
    }
}

proof fn lemma_dir_index_none(dir: Seq<HostFileV>, name: Seq<char>)
    requires
        forall|k: int| 0 <= k < dir.len() ==> dir[k].name != name,
    ensures
        dir_index_of(dir, name) == -1,
    decreases dir.len(),
{
    if dir.len() > 0 {
        lemma_dir_index_none(dir.drop_first(), name);
    }
}

/// Index of the first empty handle slot, or the table length when all slots
/// are full.
pub open spec fn first_empty_slot(handles: Seq<Option<OpenFileV>>) -> int
    decreases handles.len(),
{
    if handles.len() == 0 {
        0
    } else if handles[0] is None {
        0
    } else {
        1 + first_empty_slot(handles.drop_first())
    }
}

proof fn lemma_first_empty_found(handles: Seq<Option<OpenFileV>>, i: int)
    requires
        0 <= i <= handles.len(),
        i < handles.len() ==> handles[i] is None,
        forall|k: int| 0 <= k < i ==> handles[k] is Some,
    ensures
        first_empty_slot(handles) == i,
    decreases handles.len(),
{
    if i > 0 {
        lemma_first_empty_found(handles.drop_first(), i - 1);
    }
}

/// A handle the table currently holds open: at least 1, and its slot is
/// occupied.
pub open spec fn valid_handle(fs: FsView, handle: u16) -> bool {
    1 <= handle && handle - 1 < fs.handles.len() && fs.handles[handle - 1] is Some
}

/// Well-formedness of the file system: every open handle points into the
/// directory at a sane position, host file sizes and names are those of one
/// real DOS directory, and the name cache is a bijection.
pub open spec fn fs_wf(fs: FsView) -> bool {
    &&& forall|i: int|
        0 <= i < fs.handles.len() ==> ((#[trigger] fs.handles[i]) matches Some(f) ==> 0
            <= f.dir_index < fs.dir.len() && 0 <= f.position <= 0x7fff_ffff_ffff_ffff)
    &&& forall|i: int| 0 <= i < fs.dir.len() ==> (#[trigger] fs.dir[i]).data.len() <= 0xffff_ffff
    &&& forall|i: int, j: int|
        0 <= i < j < fs.dir.len() ==> (#[trigger] fs.dir[i]).name != (#[trigger] fs.dir[j]).name
    &&& fs.handles.len() <= 0xfffe
    &&& cache_wf(fs.cache)
}

// ---------------------------------------------------------------------------
// Specification of the file-system transitions
// ---------------------------------------------------------------------------

/// State after installing `f` in slot `slot` (extending the table when the
/// slot is the table length).
pub open spec fn install_handle(
    handles: Seq<Option<OpenFileV>>,
    slot: int,
    f: OpenFileV,
) -> Seq<Option<OpenFileV>> {
    if slot < handles.len() {
        handles.update(slot, Some(f))
    } else {
        handles.push(Some(f))
    }
}

/// Transition of `create`: resolve the host name, truncate an existing host
/// file or add an empty one, and open a handle to it in write mode.
pub open spec fn create_spec(fs: FsView, filename: Seq<u8>, attributes: u16) -> (
    FsView,
    Result<u16, DosErrorCode>,
) {
    let dos = spec_parse_dos(filename);
    let (cache2, host) = get_real_name_spec(
        register_names_spec(fs.cache, dir_names(fs.dir)),
        dos,
    );
    let fs1 = FsView { cache: cache2, ..fs };
    let slot = first_empty_slot(fs1.handles);
    if slot >= 0xfffe {
        (fs1, Err(DosErrorCode::NoFileHandlesLeft))
    } else {
        let di = dir_index_of(fs1.dir, host);
        let (dir2, idx) = if di >= 0 {
            (fs1.dir.update(di, HostFileV { name: host, data: Seq::empty() }), di)
        } else {
            (fs1.dir.push(HostFileV { name: host, data: Seq::empty() }), fs1.dir.len() as int)
        };
        let f = OpenFileV { dir_index: idx, position: 0, access_mode: DosFileAccessMode::WriteOnly };
        (
            FsView { dir: dir2, handles: install_handle(fs1.handles, slot, f), ..fs1 },
            Ok((slot + 1) as u16),
        )
    }
}

/// Transition of `open`: resolve the host name; an existing host file opens
/// at position 0, a missing one is created empty by the write modes and is
/// `FileNotFound` to read-only.
pub open spec fn open_spec(fs: FsView, filename: Seq<u8>, access_mode: DosFileAccessMode) -> (
    FsView,
    Result<u16, DosErrorCode>,
) {
    let dos = spec_parse_dos(filename);
    let (cache2, host) = get_real_name_spec(
        register_names_spec(fs.cache, dir_names(fs.dir)),
        dos,
    );
    let fs1 = FsView { cache: cache2, ..fs };
    let slot = first_empty_slot(fs1.handles);
    if slot >= 0xfffe {
        (fs1, Err(DosErrorCode::NoFileHandlesLeft))
    } else {
        let di = dir_index_of(fs1.dir, host);
        if di >= 0 {
            let f = OpenFileV { dir_index: di, position: 0, access_mode };
            (FsView { handles: install_handle(fs1.handles, slot, f), ..fs1 }, Ok((slot + 1) as u16))
        } else if access_mode == DosFileAccessMode::ReadOnly {
            (fs1, Err(DosErrorCode::FileNotFound))
        } else {
            let dir2 = fs1.dir.push(HostFileV { name: host, data: Seq::empty() });
            let f = OpenFileV { dir_index: fs1.dir.len() as int, position: 0, access_mode };
            (
                FsView { dir: dir2, handles: install_handle(fs1.handles, slot, f), ..fs1 },
                Ok((slot + 1) as u16),
            )
        }
    }
}

/// Transition of `close`: an open handle's slot is emptied and reusable; any
/// other handle is `InvalidFileHandle`.
pub open spec fn close_spec(fs: FsView, handle: u16) -> (FsView, Result<(), DosErrorCode>) {
    if valid_handle(fs, handle) {
        (FsView { handles: fs.handles.update(handle - 1, None), ..fs }, Ok(()))
    } else {
        (fs, Err(DosErrorCode::InvalidFileHandle))
    }
}

/// Transition of `read`: up to `count` bytes from the handle's position,
/// clipped at end of file; the position advances by the bytes read.
pub open spec fn read_spec(fs: FsView, handle: u16, count: u16) -> (
    FsView,
    Result<Seq<u8>, DosErrorCode>,
) {
    if valid_handle(fs, handle) {
        let f = fs.handles[handle - 1]->Some_0;
        let data = fs.dir[f.dir_index].data;
        let avail = if f.position < data.len() {
            data.len() - f.position
        } else {
            0
        };
        let n = if count <= avail {
            count as int
        } else {
            avail as int
        };
        let start = if f.position <= data.len() {
            f.position
        } else {
            data.len() as int
        };
        let f2 = OpenFileV { position: f.position + n, ..f };
        (
            FsView { handles: fs.handles.update(handle - 1, Some(f2)), ..fs },
            Ok(data.subrange(start, start + n)),
        )
    } else {
        (fs, Err(DosErrorCode::InvalidFileHandle))
    }
}

/// Transition of `write`: the write path is not covered; a valid handle is
/// refused with `AccessDenied`, any other with `InvalidFileHandle`.
pub open spec fn write_spec(fs: FsView, handle: u16) -> (FsView, Result<u16, DosErrorCode>) {
    if valid_handle(fs, handle) {
        (fs, Err(DosErrorCode::AccessDenied))
    } else {
        (fs, Err(DosErrorCode::InvalidFileHandle))
    }
}

/// A 32-bit seek offset reinterpreted as signed.
pub open spec fn sign32(offset: u32) -> int {
    if offset >= 0x8000_0000 {
        offset - 0x1_0000_0000
    } else {
        offset as int
    }
}

/// The absolute position a seek aims at: the offset is unsigned from the
/// start, signed relative to the current position or the end.
pub open spec fn seek_target(
    position: int,
    data_len: int,
    offset: u32,
    origin: DosFileSeekOrigin,
) -> int {
    match origin {
        DosFileSeekOrigin::Start => offset as int,
        DosFileSeekOrigin::Current => position + sign32(offset),
        DosFileSeekOrigin::End => data_len + sign32(offset),
    }
}

/// Transition of `seek`: the position moves to the target when the host can
/// hold it; a target before the start of the file is a host error, reported
/// as `PathNotFound`. The reported position is the target's low 32 bits.
pub open spec fn seek_spec(fs: FsView, handle: u16, offset: u32, origin: DosFileSeekOrigin) -> (
    FsView,
    Result<u32, DosErrorCode>,
) {
    if valid_handle(fs, handle) {
        let f = fs.handles[handle - 1]->Some_0;
        let data = fs.dir[f.dir_index].data;
        let target = seek_target(f.position, data.len() as int, offset, origin);
        if target < 0 || target > 0x7fff_ffff_ffff_ffff {
            (fs, Err(DosErrorCode::PathNotFound))
        } else {
            let f2 = OpenFileV { position: target, ..f };
            (
                FsView { handles: fs.handles.update(handle - 1, Some(f2)), ..fs },
                Ok((target % 0x1_0000_0000) as u32),
            )
        }
    } else {
        (fs, Err(DosErrorCode::InvalidFileHandle))
    }
}

/// The cache after the host names of the directory were walked in order and
/// each registered; this is the listing refresh every name resolution runs
/// first.
pub open spec fn register_names_spec(
    cache: Seq<(Seq<char>, DosNameV)>,
    names: Seq<Seq<char>>,
) -> Seq<(Seq<char>, DosNameV)>
    decreases names.len(),
{
    if names.len() == 0 {
        cache
    } else {
        register_names_spec(get_dos_name_spec(cache, names[0]).0, names.drop_first())
    }
}

/// Walks the host names of the directory in order, registering each in the
/// cache; returns the cache after the walk and the 8.3 names that match
/// `pat`, in directory order.
pub open spec fn scan_dir_spec(
    cache: Seq<(Seq<char>, DosNameV)>,
    names: Seq<Seq<char>>,
    pat: Seq<u8>,
) -> (Seq<(Seq<char>, DosNameV)>, Seq<DosNameV>)
    decreases names.len(),
{
    if names.len() == 0 {
        (cache, Seq::empty())
    } else {
        let (c1, nm) = get_dos_name_spec(cache, names[0]);
        let (c2, rest) = scan_dir_spec(c1, names.drop_first(), pat);
        (
            c2,
            if spec_matches(nm, pat) {
                seq![nm] + rest
            } else {
                rest
            },
        )
    }
}

/// The host names of the directory, in order.
pub open spec fn dir_names(dir: Seq<HostFileV>) -> Seq<Seq<char>> {
    dir.map_values(|h: HostFileV| h.name)
}

/// The 128-byte DTA after a find result: bytes 0x15 through 0x1E zeroed,
/// then the printable 8.3 name at 0x1E with a NUL terminator; everything
/// else keeps its old value.
pub open spec fn dta_write(dest: Seq<u8>, name: Seq<u8>) -> Seq<u8> {
    Seq::new(
        dest.len(),
        |i: int|
            if 0x1e <= i < 0x1e + name.len() {
                name[i - 0x1e]
            } else if i == 0x1e + name.len() {
                0
            } else if 0x15 <= i <= 0x1e {
                0
            } else {
                dest[i]
            },
    )
}

/// Transition of `find_next`: pop the front of the cursor into the DTA;
/// an empty or absent cursor is `NoMoreFiles` and leaves the DTA alone.
pub open spec fn find_next_spec(fs: FsView, dest: Seq<u8>) -> (
    FsView,
    Seq<u8>,
    Result<(), DosErrorCode>,
) {
    match fs.queue {
        None => (fs, dest, Err(DosErrorCode::NoMoreFiles)),
        Some(q) => {
            if q.len() == 0 {
                (fs, dest, Err(DosErrorCode::NoMoreFiles))
            } else {
                (
                    FsView { queue: Some(q.drop_first()), ..fs },
                    dta_write(dest, spec_real_dos_name(q[0])),
                    Ok(()),
                )
            }
        },
    }
}

/// Transition of `find_first`: register the search spec itself in the name
/// cache (as resolving any name does), rebuild the cursor from the matching
/// directory entries, and report the first match as `find_next` does.
pub open spec fn find_first_spec(fs: FsView, dest: Seq<u8>, pat: Seq<u8>) -> (
    FsView,
    Seq<u8>,
    Result<(), DosErrorCode>,
) {
    let dos = spec_parse_dos(pat);
    let cache1 = get_real_name_spec(
        register_names_spec(fs.cache, dir_names(fs.dir)),
        dos,
    ).0;
    let (cache2, matches) = scan_dir_spec(cache1, dir_names(fs.dir), pat);
    let fs1 = FsView { cache: cache2, queue: Some(matches), ..fs };
    find_next_spec(fs1, dest)
}

proof fn lemma_first_empty_bounds(handles: Seq<Option<OpenFileV>>)
    ensures
        0 <= first_empty_slot(handles) <= handles.len(),
        first_empty_slot(handles) < handles.len() ==> handles[first_empty_slot(handles)] is None,
        forall|k: int| 0 <= k < first_empty_slot(handles) ==> handles[k] is Some,
    decreases handles.len(),
{
    if handles.len() > 0 && handles[0] is Some {
        lemma_first_empty_bounds(handles.drop_first());
        assert forall|k: int| 0 <= k < first_empty_slot(handles) implies handles[k] is Some by {
            if k > 0 {
                assert(handles.drop_first()[k - 1] == handles[k]);
            }
        }
    }
}

proof fn lemma_dir_index_char(dir: Seq<HostFileV>, name: Seq<char>)
    ensures
        dir_index_of(dir, name) == -1 ==> forall|k: int|
            0 <= k < dir.len() ==> dir[k].name != name,
        dir_index_of(dir, name) != -1 ==> 0 <= dir_index_of(dir, name) < dir.len() && dir[
            dir_index_of(dir, name)
        ].name == name,
    decreases dir.len(),
{
    if dir.len() > 0 {
        lemma_dir_index_char(dir.drop_first(), name);
        if dir_index_of(dir, name) == -1 {
            assert forall|k: int| 0 <= k < dir.len() implies dir[k].name != name by {
                if k > 0 {
                    assert(dir.drop_first()[k - 1] == dir[k]);
                }
            }
        }
    }
}

impl StandardDosFileSystem {
    /// A file system over an empty host directory image with no open
    /// handles.
    pub fn new() -> (r: StandardDosFileSystem)
        ensures
            fs_wf(r@),
            r@.dir == Seq::<HostFileV>::empty(),
            r@.handles == Seq::<Option<OpenFileV>>::empty(),
            r@.cache == Seq::<(Seq<char>, DosNameV)>::empty(),
            r@.queue is None,
    {
        let r = StandardDosFileSystem {
            host_dir: Vec::new(),
            file_handles: Vec::new(),
            dir_listing: DirListingCache::new(),
            current_file_queue: None,
        };
        proof {
            assert(r@.dir =~= Seq::<HostFileV>::empty());
            assert(r@.handles =~= Seq::<Option<OpenFileV>>::empty());
        }
        r
    }

    fn find_dir_index(&self, name: &Vec<char>) -> (r: Option<usize>)
        ensures
            dir_index_of(self@.dir, name@) == (match r {
                Some(i) => i as int,
                None => -1,
            }),
            r matches Some(i) ==> i < self@.dir.len(),
    {
        let mut i: usize = 0;
        while i < self.host_dir.len()
            invariant
                i <= self@.dir.len(),
                self@.dir.len() == self.host_dir@.len(),
                forall|k: int| 0 <= k < i ==> self@.dir[k].name != name@,
            decreases self@.dir.len() - i,
        {
            if chars_eq(&self.host_dir[i].name, name) {
                proof {
                    assert(self@.dir[i as int].name == name@);
                    lemma_dir_index_found(self@.dir, name@, i as int);
                }
                return Some(i);
            }
            proof {
                assert(self@.dir[i as int].name == self.host_dir@[i as int].name@);
            }
            i += 1;
        }
        proof {
            lemma_dir_index_none(self@.dir, name@);
        }
        None
    }

    /// Installs a host file in the directory image, replacing the bytes of
    /// an already-present name. The host shell seeds the image with this
    /// before the guest runs.
    pub fn add_host_file(&mut self, name: Vec<char>, data: Vec<u8>)
        requires
            fs_wf(old(self)@),
            data@.len() <= 0xffff_ffff,
        ensures
            fs_wf(final(self)@),
            final(self)@ == (FsView {
                dir: (if dir_index_of(old(self)@.dir, name@) >= 0 {
                    old(self)@.dir.update(
                        dir_index_of(old(self)@.dir, name@),
                        HostFileV { name: name@, data: data@ },
                    )
                } else {
                    old(self)@.dir.push(HostFileV { name: name@, data: data@ })
                }),
                ..old(self)@
            }),
    {
        let found = self.find_dir_index(&name);
        let ghost pre = self@;
        match found {
            Some(i) => {
                proof {
                    lemma_dir_index_char(pre.dir, name@);
                }
                self.host_dir.set(i, HostFile { name, data });
                proof {
                    assert(self@.dir =~= pre.dir.update(
                        dir_index_of(pre.dir, name@),
                        HostFileV { name: name@, data: data@ },
                    ));
                    assert(fs_wf(self@));
                }
            },
            None => {
                proof {
                    lemma_dir_index_char(pre.dir, name@);
                }
                self.host_dir.push(HostFile { name, data });
                proof {
                    assert(self@.dir =~= pre.dir.push(HostFileV { name: name@, data: data@ }));
                    assert forall|i: int, j: int| 0 <= i < j < self@.dir.len() implies (
                    #[trigger] self@.dir[i]).name != (#[trigger] self@.dir[j]).name by {
                        if j < self@.dir.len() - 1 {
                            assert(pre.dir[i].name != pre.dir[j].name);
                        } else {
                            assert(pre.dir[i].name != name@);
                        }
                    }
                    assert(fs_wf(self@));
                }
            },
        }
    }

    /// The bytes of the host file named `name`, if the image holds one.
    /// The host shell reads the image back with this after the guest ran.
    pub fn host_file_data(&self, name: &Vec<char>) -> (r: Option<Vec<u8>>)
        ensures
            dir_index_of(self@.dir, name@) >= 0 ==> (r matches Some(v) && v@ == self@.dir[
                dir_index_of(self@.dir, name@)
            ].data),
            dir_index_of(self@.dir, name@) == -1 ==> r is None,
    {
        match self.find_dir_index(name) {
            Some(i) => Some(clone_bytes(&self.host_dir[i].data)),
            None => None,
        }
    }

    fn get_empty_slot(&self) -> (r: usize)
        ensures
            r == first_empty_slot(self@.handles),
    {
        let mut i: usize = 0;
        while i < self.file_handles.len()
            invariant
                i <= self@.handles.len(),
                self@.handles.len() == self.file_handles@.len(),
                forall|k: int| 0 <= k < i ==> self@.handles[k] is Some,
            decreases self@.handles.len() - i,
        {
            if self.file_handles[i].is_none() {
                proof {
                    assert(self@.handles[i as int] is None);
                    lemma_first_empty_found(self@.handles, i as int);
                }
                return i;
            }
            proof {
                assert(self@.handles[i as int] is Some);
            }
            i += 1;
        }
        proof {
            lemma_first_empty_found(self@.handles, i as int);
        }
        i
    }

    /// Refreshes the name cache from the current directory listing,
    /// registering every host name not yet seen.
    fn refresh_listing(&mut self)
        requires
            fs_wf(old(self)@),
            old(self)@.cache.len() + old(self)@.dir.len() + 2 <= 10000000,
        ensures
            fs_wf(final(self)@),
            final(self)@ == (FsView {
                cache: register_names_spec(old(self)@.cache, dir_names(old(self)@.dir)),
                ..old(self)@
            }),
            final(self)@.cache.len() <= old(self)@.cache.len() + old(self)@.dir.len(),
    {
        let ghost names = dir_names(self@.dir);
        let ghost full = register_names_spec(self@.cache, names);
        let mut i: usize = 0;
        proof {
            assert(names.skip(0) =~= names);
        }
        while i < self.host_dir.len()
            invariant
                i <= self.host_dir@.len(),
                self@.dir.len() == self.host_dir@.len(),
                names == dir_names(self@.dir),
                full == register_names_spec(old(self)@.cache, names),
                fs_wf(self@),
                self@.dir == old(self)@.dir,
                self@.handles == old(self)@.handles,
                self@.queue == old(self)@.queue,
                self@.cache.len() <= old(self)@.cache.len() + i,
                old(self)@.cache.len() + old(self)@.dir.len() + 2 <= 10000000,
                full == register_names_spec(self@.cache, names.skip(i as int)),
            decreases self.host_dir@.len() - i,
        {
            proof {
                lemma_register_step(self@.cache, names, i as int);
                assert(names[i as int] == self.host_dir@[i as int].name@);
            }
            let _ = self.dir_listing.get_dos_name_chars(&self.host_dir[i].name);
            i += 1;
        }
        proof {
            assert(names.skip(i as int).len() == 0);
        }
    }

    /// The host file name a guest-supplied DOS path resolves to, after a
    /// listing refresh.
    pub fn get_real_filepath(&mut self, filename: &[u8]) -> (r: Vec<char>)
        requires
            fs_wf(old(self)@),
            old(self)@.cache.len() + old(self)@.dir.len() + 2 <= 10000000,
        ensures
            fs_wf(final(self)@),
            final(self)@ == (FsView {
                cache: get_real_name_spec(
                    register_names_spec(old(self)@.cache, dir_names(old(self)@.dir)),
                    spec_parse_dos(filename@),
                ).0,
                ..old(self)@
            }),
            r@ == get_real_name_spec(
                register_names_spec(old(self)@.cache, dir_names(old(self)@.dir)),
                spec_parse_dos(filename@),
            ).1,
            final(self)@.cache.len() <= old(self)@.cache.len() + old(self)@.dir.len() + 1,
    {
        self.refresh_listing();
        let dos = DosFileName::parse(filename);
        self.dir_listing.get_real_name(&dos)
    }

    fn install_slot(&mut self, slot: usize, f: OpenFile)
        requires
            slot == first_empty_slot(old(self)@.handles),
            slot < 0xfffe,
            old(self)@.handles.len() <= 0xfffe,
        ensures
            final(self)@ == (FsView {
                handles: install_handle(old(self)@.handles, slot as int, f@),
                ..old(self)@
            }),
            final(self)@.handles.len() <= 0xfffe,
            final(self)@.handles[slot as int] == Some(f@),
            final(self)@.handles.len() == (if slot < old(self)@.handles.len() {
                old(self)@.handles.len()
            } else {
                old(self)@.handles.len() + 1
            }),
    {
        proof {
            lemma_first_empty_bounds(old(self)@.handles);
        }
        let ghost pre = self@;
        if slot < self.file_handles.len() {
            self.file_handles.set(slot, Some(f));
            proof {
                assert(self@.handles =~= install_handle(pre.handles, slot as int, f@));
            }
        } else {
            self.file_handles.push(Some(f));
            proof {
                assert(self@.handles =~= install_handle(pre.handles, slot as int, f@));
            }
        }
    }

    /// Creates (or truncates) the file a guest path names and returns a
    /// fresh handle to it.
    pub fn create(&mut self, filename: &[u8], attributes: u16) -> (r: Result<u16, DosErrorCode>)
        requires
            fs_wf(old(self)@),
            old(self)@.cache.len() + old(self)@.dir.len() + 2 <= 10000000,
        ensures
            fs_wf(final(self)@),
            (final(self)@, r) == create_spec(old(self)@, filename@, attributes),
    {
        let host = self.get_real_filepath(filename);
        let ghost fs1 = self@;
        let slot = self.get_empty_slot();
        proof {
            lemma_first_empty_bounds(fs1.handles);
        }
        if slot >= 0xfffe {
            return Err(DosErrorCode::NoFileHandlesLeft);
        }
        let found = self.find_dir_index(&host);
        let ghost pre_dir = self@.dir;
        let ghost hostv = host@;
        proof {
            lemma_dir_index_char(pre_dir, hostv);
        }
        let idx: usize = match found {
            Some(di) => {
                self.host_dir.set(di, HostFile { name: host, data: Vec::new() });
                proof {
                    assert(self@.dir =~= pre_dir.update(
                        di as int,
                        HostFileV { name: hostv, data: Seq::empty() },
                    ));
                }
                di
            },
            None => {
                let di = self.host_dir.len();
                self.host_dir.push(HostFile { name: host, data: Vec::new() });
                proof {
                    assert(self@.dir =~= pre_dir.push(HostFileV { name: hostv, data: Seq::empty() }));
                }
                di
            },
        };
        proof {
            assert forall|i: int, j: int| 0 <= i < j < self@.dir.len() implies (
            #[trigger] self@.dir[i]).name != (#[trigger] self@.dir[j]).name by {
                if j < pre_dir.len() {
                    assert(pre_dir[i].name != pre_dir[j].name);
                } else {
                    assert(pre_dir[i].name != hostv);
                }
            }
        }
        let f = OpenFile { dir_index: idx, position: 0, access_mode: DosFileAccessMode::WriteOnly };
        self.install_slot(slot, f);
        proof {
            assert forall|i: int|
                0 <= i < self@.handles.len() implies ((#[trigger] self@.handles[i]) matches Some(g)
                ==> 0 <= g.dir_index < self@.dir.len() && 0 <= g.position
                <= 0x7fff_ffff_ffff_ffff) by {
                if i != slot {
                    assert(self@.handles[i] == fs1.handles[i]);
                }
            }
            assert(fs_wf(self@));
            assert((self@, Ok::<u16, DosErrorCode>((slot + 1) as u16)) == create_spec(
                old(self)@,
                filename@,
                attributes,
            ));
        }
        Ok(slot as u16 + 1)
    }

    /// Opens the file a guest path names; the write modes create a missing
    /// file, read-only reports `FileNotFound`.
    pub fn open(&mut self, filename: &[u8], access_mode: DosFileAccessMode) -> (r: Result<
        u16,
        DosErrorCode,
    >)
        requires
            fs_wf(old(self)@),
            old(self)@.cache.len() + old(self)@.dir.len() + 2 <= 10000000,
        ensures
            fs_wf(final(self)@),
            (final(self)@, r) == open_spec(old(self)@, filename@, access_mode),
    {
        let host = self.get_real_filepath(filename);
        let ghost fs1 = self@;
        let slot = self.get_empty_slot();
        proof {
            lemma_first_empty_bounds(fs1.handles);
        }
        if slot >= 0xfffe {
            return Err(DosErrorCode::NoFileHandlesLeft);
        }
        let found = self.find_dir_index(&host);
        let ghost pre_dir = self@.dir;
        let ghost hostv = host@;
        proof {
            lemma_dir_index_char(pre_dir, hostv);
        }
        let idx: usize = match found {
            Some(di) => di,
            None => {
                if matches!(access_mode, DosFileAccessMode::ReadOnly) {
                    return Err(DosErrorCode::FileNotFound);
                }
                let di = self.host_dir.len();
                self.host_dir.push(HostFile { name: host, data: Vec::new() });
                proof {
                    assert(self@.dir =~= pre_dir.push(HostFileV { name: hostv, data: Seq::empty() }));
                    assert forall|i: int, j: int| 0 <= i < j < self@.dir.len() implies (
                    #[trigger] self@.dir[i]).name != (#[trigger] self@.dir[j]).name by {
                        if j < pre_dir.len() {
                            assert(pre_dir[i].name != pre_dir[j].name);
                        } else {
                            assert(pre_dir[i].name != hostv);
                        }
                    }
                }
                di
            },
        };
        let f = OpenFile { dir_index: idx, position: 0, access_mode };
        self.install_slot(slot, f);
        proof {
            assert forall|i: int|
                0 <= i < self@.handles.len() implies ((#[trigger] self@.handles[i]) matches Some(g)
                ==> 0 <= g.dir_index < self@.dir.len() && 0 <= g.position
                <= 0x7fff_ffff_ffff_ffff) by {
                if i != slot {
                    assert(self@.handles[i] == fs1.handles[i]);
                }
            }
            assert(fs_wf(self@));
            assert((self@, Ok::<u16, DosErrorCode>((slot + 1) as u16)) == open_spec(
                old(self)@,
                filename@,
                access_mode,
            ));
        }
        Ok(slot as u16 + 1)
    }

    /// Closes a handle; the slot becomes reusable.
    pub fn close(&mut self, handle: u16) -> (r: Result<(), DosErrorCode>)
        requires
            fs_wf(old(self)@),
        ensures
            fs_wf(final(self)@),
            (final(self)@, r) == close_spec(old(self)@, handle),
    {
        if handle == 0 {
            return Err(DosErrorCode::InvalidFileHandle);
        }
        let handle_index = (handle - 1) as usize;
        if handle_index < self.file_handles.len() && self.file_handles[handle_index].is_some() {
            let ghost pre = self@;
            self.file_handles.set(handle_index, None);
            proof {
                assert(self@.handles =~= pre.handles.update(handle - 1, None));
                assert forall|i: int|
                    0 <= i < self@.handles.len() implies ((#[trigger] self@.handles[i]) matches Some(
                    g,
                ) ==> 0 <= g.dir_index < self@.dir.len() && 0 <= g.position
                    <= 0x7fff_ffff_ffff_ffff) by {
                    if i != handle - 1 {
                        assert(self@.handles[i] == pre.handles[i]);
                    }
                }
                assert(self@.dir == pre.dir);
                assert(self@.cache == pre.cache);
                assert(self@.handles.len() == pre.handles.len());
                assert(fs_wf(self@));
            }
            Ok(())
        } else {
            Err(DosErrorCode::InvalidFileHandle)
        }
    }

    /// Reads up to `count` bytes from a handle; the bytes actually read come
    /// back and the position advances past them.
    pub fn read(&mut self, handle: u16, count: u16) -> (r: Result<Vec<u8>, DosErrorCode>)
        requires
            fs_wf(old(self)@),
        ensures
            fs_wf(final(self)@),
            final(self)@ == read_spec(old(self)@, handle, count).0,
            r matches Ok(v) ==> read_spec(old(self)@, handle, count).1 == Ok::<
                Seq<u8>,
                DosErrorCode,
            >(v@),
            r matches Err(e) ==> read_spec(old(self)@, handle, count).1 == Err::<
                Seq<u8>,
                DosErrorCode,
            >(e),
    {
        if handle == 0 {
            return Err(DosErrorCode::InvalidFileHandle);
        }
        let handle_index = (handle - 1) as usize;
        if handle_index >= self.file_handles.len() {
            return Err(DosErrorCode::InvalidFileHandle);
        }
        let (di, pos, mode) = match &self.file_handles[handle_index] {
            Some(f) => (f.dir_index, f.position, f.access_mode),
            None => {
                return Err(DosErrorCode::InvalidFileHandle);
            },
        };
        let data_len = self.host_dir[di].data.len();
        let avail: usize = if pos < data_len as u64 {
            data_len - pos as usize
        } else {
            0
        };
        let n: usize = if (count as usize) <= avail {
            count as usize
        } else {
            avail
        };
        let start: usize = if pos < data_len as u64 {
            pos as usize
        } else {
            data_len
        };
        let bytes = copy_range(self.host_dir[di].data.as_slice(), start, start + n);
        let ghost pre = self@;
        self.file_handles.set(
            handle_index,
            Some(OpenFile { dir_index: di, position: pos + n as u64, access_mode: mode }),
        );
        proof {
            let f2 = OpenFileV {
                position: pos + n,
                ..pre.handles[handle - 1]->Some_0
            };
            assert(self@.handles =~= pre.handles.update(handle - 1, Some(f2)));
            assert forall|i: int|
                0 <= i < self@.handles.len() implies ((#[trigger] self@.handles[i]) matches Some(g)
                ==> 0 <= g.dir_index < self@.dir.len() && 0 <= g.position
                <= 0x7fff_ffff_ffff_ffff) by {
                if i != handle - 1 {
                    assert(self@.handles[i] == pre.handles[i]);
                }
            }
            assert(fs_wf(self@));
        }
        Ok(bytes)
    }

    /// The write path is not covered: a valid handle is refused with
    /// `AccessDenied`, any other with `InvalidFileHandle`.
    pub fn write(&mut self, handle: u16, data: &[u8]) -> (r: Result<u16, DosErrorCode>)
        requires
            fs_wf(old(self)@),
        ensures
            fs_wf(final(self)@),
            (final(self)@, r) == write_spec(old(self)@, handle),
    {
        if handle == 0 {
            return Err(DosErrorCode::InvalidFileHandle);
        }
        let handle_index = (handle - 1) as usize;
        if handle_index < self.file_handles.len() && self.file_handles[handle_index].is_some() {
            Err(DosErrorCode::AccessDenied)
        } else {
            Err(DosErrorCode::InvalidFileHandle)
        }
    }

    /// Moves a handle's position; returns the new absolute position's low
    /// 32 bits.
    pub fn seek(&mut self, handle: u16, offset: u32, origin: DosFileSeekOrigin) -> (r: Result<
        u32,
        DosErrorCode,
    >)
        requires
            fs_wf(old(self)@),
        ensures
            fs_wf(final(self)@),
            (final(self)@, r) == seek_spec(old(self)@, handle, offset, origin),
    {
        if handle == 0 {
            return Err(DosErrorCode::InvalidFileHandle);
        }
        let handle_index = (handle - 1) as usize;
        if handle_index >= self.file_handles.len() {
            return Err(DosErrorCode::InvalidFileHandle);
        }
        let (di, pos, mode) = match &self.file_handles[handle_index] {
            Some(f) => (f.dir_index, f.position, f.access_mode),
            None => {
                return Err(DosErrorCode::InvalidFileHandle);
            },
        };
        let data_len = self.host_dir[di].data.len();
        let off_i: i128 = if offset >= 0x8000_0000 {
            offset as i128 - 0x1_0000_0000
        } else {
            offset as i128
        };
        let target: i128 = match origin {
            DosFileSeekOrigin::Start => offset as i128,
            DosFileSeekOrigin::Current => pos as i128 + off_i,
            DosFileSeekOrigin::End => data_len as i128 + off_i,
        };
        if target < 0 || target > 0x7fff_ffff_ffff_ffff {
            return Err(DosErrorCode::PathNotFound);
        }
        let ghost pre = self@;
        self.file_handles.set(
            handle_index,
            Some(OpenFile { dir_index: di, position: target as u64, access_mode: mode }),
        );
        proof {
            let f2 = OpenFileV {
                position: target as int,
                ..pre.handles[handle - 1]->Some_0
            };
            assert(self@.handles =~= pre.handles.update(handle - 1, Some(f2)));
            assert forall|i: int|
                0 <= i < self@.handles.len() implies ((#[trigger] self@.handles[i]) matches Some(g)
                ==> 0 <= g.dir_index < self@.dir.len() && 0 <= g.position
                <= 0x7fff_ffff_ffff_ffff) by {
                if i != handle - 1 {
                    assert(self@.handles[i] == pre.handles[i]);
                }
            }
            assert(fs_wf(self@));
        }
        Ok((target as u64 % 0x1_0000_0000) as u32)
    }

    /// Reports the front of the find cursor into the 128-byte DTA
    /// `destination`: bytes 0x15 through 0x1E are zeroed and the printable
    /// 8.3 name lands at 0x1E, NUL-terminated. An exhausted or absent cursor
    /// is `NoMoreFiles`.
    pub fn find_next_file(&mut self, destination: &mut Vec<u8>) -> (r: Result<(), DosErrorCode>)
        requires
            fs_wf(old(self)@),
            old(destination)@.len() >= 0x1f,
            (match old(self)@.queue {
                Some(q) => q.len() > 0 ==> old(destination)@.len() >= 0x1f + spec_real_dos_name(
                    q[0],
                ).len(),
                None => true,
            }),
        ensures
            fs_wf(final(self)@),
            (final(self)@, final(destination)@, r) == find_next_spec(
                old(self)@,
                old(destination)@,
            ),
    {
        let ghost pre = self@;
        let popped: Option<DosFileName> = match &mut self.current_file_queue {
            None => None,
            Some(q) => q.pop_front(),
        };
        proof {
            assert(self@.dir == pre.dir);
            assert(self@.handles == pre.handles);
            assert(self@.cache == pre.cache);
            assert(fs_wf(self@));
        }
        let next_file = match popped {
            Some(f) => f,
            None => {
                proof {
                    match pre.queue {
                        None => {},
                        Some(q) => {
                            assert(self@.queue == Some(q));
                        },
                    }
                }
                return Err(DosErrorCode::NoMoreFiles);
            },
        };
        proof {
            let q = pre.queue->Some_0;
            assert(next_file@ == q[0]);
            assert(self@.queue->Some_0 =~= q.drop_first());
            assert(self@.queue == Some(q.drop_first()));
        }
        let next_name = next_file.real_dos_name();
        let dlen: usize = destination.len();
        let ghost dest0 = destination@;
        let ghost target = dta_write(dest0, next_name@);
        let mut i: usize = 0x15;
        while i <= 0x1e
            invariant
                0x15 <= i <= 0x1f,
                destination@.len() == dest0.len(),
                dest0.len() >= 0x1f,
                forall|k: int| 0x15 <= k < i ==> destination@[k] == 0,
                forall|k: int| 0 <= k < 0x15 ==> destination@[k] == dest0[k],
                forall|k: int| i <= k < dest0.len() ==> destination@[k] == dest0[k],
            decreases 0x1f - i,
        {
            destination.set(i, 0);
            i += 1;
        }
        let mut k: usize = 0;
        while k < next_name.len()
            invariant
                k <= next_name@.len(),
                destination@.len() == dlen,
                dlen >= 0x1f + next_name@.len(),
                forall|j: int| 0 <= j < k ==> destination@[0x1e + j] == next_name@[j],
                forall|j: int| 0x15 <= j < 0x1e ==> destination@[j] == 0,
                k == 0 ==> destination@[0x1e] == 0,
                forall|j: int| 0 <= j < 0x15 ==> destination@[j] == dest0[j],
                forall|j: int| 0x1e + k < j < dest0.len() ==> destination@[j] == dest0[j],
                dest0.len() == dlen,
            decreases next_name@.len() - k,
        {
            destination.set(0x1e + k, next_name[k]);
            k += 1;
        }
        destination.set(0x1e + next_name.len(), 0);
        proof {
            assert(destination@ =~= target);
        }
        Ok(())
    }
}

proof fn lemma_register_step(cache: Seq<(Seq<char>, DosNameV)>, names: Seq<Seq<char>>, i: int)
    requires
        0 <= i < names.len(),
    ensures
        register_names_spec(cache, names.skip(i)) == register_names_spec(
            get_dos_name_spec(cache, names[i]).0,
            names.skip(i + 1),
        ),
{
    assert(names.skip(i).len() > 0);
    assert(names.skip(i)[0] == names[i]);
    assert(names.skip(i).drop_first() =~= names.skip(i + 1));
}

proof fn lemma_scan_step(
    cache: Seq<(Seq<char>, DosNameV)>,
    names: Seq<Seq<char>>,
    i: int,
    pat: Seq<u8>,
)
    requires
        0 <= i < names.len(),
    ensures
        scan_dir_spec(cache, names.skip(i), pat) == ({
            let (c1, nm) = get_dos_name_spec(cache, names[i]);
            let (c2, rest) = scan_dir_spec(c1, names.skip(i + 1), pat);
            (
                c2,
                if spec_matches(nm, pat) {
                    seq![nm] + rest
                } else {
                    rest
                },
            )
        }),
{
    assert(names.skip(i).len() > 0);
    assert(names.skip(i)[0] == names[i]);
    assert(names.skip(i).drop_first() =~= names.skip(i + 1));
}

impl StandardDosFileSystem {
    /// Rebuilds the find cursor from the directory entries matching
    /// `search_spec` and reports the first match as `find_next_file` does.
    pub fn find_first_file(
        &mut self,
        destination: &mut Vec<u8>,
        attributes: u16,
        search_spec: &[u8],
    ) -> (r: Result<(), DosErrorCode>)
        requires
            fs_wf(old(self)@),
            old(self)@.cache.len() + 2 * old(self)@.dir.len() + 4 <= 10000000,
            old(destination)@.len() >= 0x1f,
            ({
                let cache1 = get_real_name_spec(
                    register_names_spec(old(self)@.cache, dir_names(old(self)@.dir)),
                    spec_parse_dos(search_spec@),
                ).0;
                let matches = scan_dir_spec(cache1, dir_names(old(self)@.dir), search_spec@).1;
                matches.len() > 0 ==> old(destination)@.len() >= 0x1f + spec_real_dos_name(
                    matches[0],
                ).len()
            }),
        ensures
            fs_wf(final(self)@),
            (final(self)@, final(destination)@, r) == find_first_spec(
                old(self)@,
                old(destination)@,
                search_spec@,
            ),
    {
        let _resolved_host = self.get_real_filepath(search_spec);
        let ghost cache1 = self@.cache;
        let ghost names = dir_names(self@.dir);
        let ghost full = scan_dir_spec(cache1, names, search_spec@);
        let mut file_queue: VecDeque<DosFileName> = VecDeque::new();
        let mut i: usize = 0;
        proof {
            assert(names.skip(0) =~= names);
            assert(file_queue@.map_values(|d: DosFileName| d@) =~= Seq::<DosNameV>::empty());
        }
        while i < self.host_dir.len()
            invariant
                i <= self.host_dir@.len(),
                self@.dir.len() == self.host_dir@.len(),
                names == dir_names(self@.dir),
                full == scan_dir_spec(cache1, names, search_spec@),
                fs_wf(self@),
                self@.dir == old(self)@.dir,
                self@.handles == old(self)@.handles,
                self@.queue == old(self)@.queue,
                self@.cache.len() <= cache1.len() + i,
                cache1.len() + self@.dir.len() + 2 <= 10000000,
                full.0 == scan_dir_spec(self@.cache, names.skip(i as int), search_spec@).0,
                full.1 == file_queue@.map_values(|d: DosFileName| d@) + scan_dir_spec(
                    self@.cache,
                    names.skip(i as int),
                    search_spec@,
                ).1,
            decreases self.host_dir@.len() - i,
        {
            proof {
                lemma_scan_step(self@.cache, names, i as int, search_spec@);
                assert(names[i as int] == self.host_dir@[i as int].name@);
            }
            let ghost qpre = file_queue@.map_values(|d: DosFileName| d@);
            let dos_name = self.dir_listing.get_dos_name_chars(&self.host_dir[i].name);
            if filename_matches_spec(&dos_name, search_spec) {
                let ghost dv = dos_name@;
                file_queue.push_back(dos_name);
                proof {
                    assert(file_queue@.map_values(|d: DosFileName| d@) =~= qpre.push(dv));
                    assert(qpre.push(dv) =~= qpre + seq![dv]);
                }
            }
            i += 1;
        }
        proof {
            assert(names.skip(i as int).len() == 0);
            assert(scan_dir_spec(self@.cache, names.skip(i as int), search_spec@).1
                =~= Seq::<DosNameV>::empty());
            assert(file_queue@.map_values(|d: DosFileName| d@) + Seq::<DosNameV>::empty()
                =~= file_queue@.map_values(|d: DosFileName| d@));
        }
        self.current_file_queue = Some(file_queue);
        self.find_next_file(destination)
    }
}

impl DosFileSystem for StandardDosFileSystem {
    /// The file-system well-formedness `fs_wf`.
    open spec fn fs_inv(&self) -> bool {
        fs_wf(self@)
    }

    /// Room in the name cache to register one more name.
    open spec fn resolve_ok(&self) -> bool {
        self@.cache.len() + self@.dir.len() + 2 <= 10000000
    }

    /// Room to refresh and scan the listing, and a DTA long enough for the
    /// first match of `search_spec`.
    open spec fn find_first_ok(&self, destination: Seq<u8>, search_spec: Seq<u8>) -> bool {
        &&& self@.cache.len() + 2 * self@.dir.len() + 4 <= 10000000
        &&& destination.len() >= 0x1f
        &&& ({
            let cache1 = get_real_name_spec(
                register_names_spec(self@.cache, dir_names(self@.dir)),
                spec_parse_dos(search_spec),
            ).0;
            let matches = scan_dir_spec(cache1, dir_names(self@.dir), search_spec).1;
            matches.len() > 0 ==> destination.len() >= 0x1f + spec_real_dos_name(matches[0]).len()
        })
    }

    /// A DTA long enough for the front of the find cursor.
    open spec fn find_next_ok(&self, destination: Seq<u8>) -> bool {
        &&& destination.len() >= 0x1f
        &&& (match self@.queue {
            Some(q) => q.len() > 0 ==> destination.len() >= 0x1f + spec_real_dos_name(q[0]).len(),
            None => true,
        })
    }

    fn create(&mut self, filename: &[u8], attributes: u16) -> (r: Result<u16, DosErrorCode>) {
        StandardDosFileSystem::create(self, filename, attributes)
    }

    fn open(&mut self, filename: &[u8], access_mode: DosFileAccessMode) -> (r: Result<
        u16,
        DosErrorCode,
    >) {
        StandardDosFileSystem::open(self, filename, access_mode)
    }

    fn close(&mut self, handle: u16) -> (r: Result<(), DosErrorCode>) {
        StandardDosFileSystem::close(self, handle)
    }

    fn read(&mut self, handle: u16, count: u16) -> (r: Result<Vec<u8>, DosErrorCode>) {
        StandardDosFileSystem::read(self, handle, count)
    }

    fn write(&mut self, handle: u16, data: &[u8]) -> (r: Result<u16, DosErrorCode>) {
        StandardDosFileSystem::write(self, handle, data)
    }

    fn seek(&mut self, handle: u16, offset: u32, origin: DosFileSeekOrigin) -> (r: Result<
        u32,
        DosErrorCode,
    >) {
        StandardDosFileSystem::seek(self, handle, offset, origin)
    }

    fn find_first_file(
        &mut self,
        destination: &mut Vec<u8>,
        attributes: u16,
        search_spec: &[u8],
    ) -> (r: Result<(), DosErrorCode>) {
        StandardDosFileSystem::find_first_file(self, destination, attributes, search_spec)
    }

    fn find_next_file(&mut self, destination: &mut Vec<u8>) -> (r: Result<(), DosErrorCode>) {
        StandardDosFileSystem::find_next_file(self, destination)
    }
}

/// For every handle `create` or `open` hands out, the handle is at least 1
/// and the slot at index `handle - 1` is occupied.
pub proof fn lemma_live_handle(fs: FsView, filename: Seq<u8>, attributes: u16, mode: DosFileAccessMode)
    requires
        fs_wf(fs),
    ensures
        create_spec(fs, filename, attributes).1 matches Ok(h) ==> h >= 1 && valid_handle(
            create_spec(fs, filename, attributes).0,
            h,
        ),
        open_spec(fs, filename, mode).1 matches Ok(h) ==> h >= 1 && valid_handle(
            open_spec(fs, filename, mode).0,
            h,
        ),
{
    lemma_first_empty_bounds(fs.handles);
}

/// After `close(h)` succeeds, `read`, `write` and `seek` on `h` all report
/// `InvalidFileHandle`.
pub proof fn lemma_closed_handle_rejected(
    fs: FsView,
    handle: u16,
    count: u16,
    offset: u32,
    origin: DosFileSeekOrigin,
)
    requires
        fs_wf(fs),
        close_spec(fs, handle).1 is Ok,
    ensures
        read_spec(close_spec(fs, handle).0, handle, count).1 == Err::<Seq<u8>, DosErrorCode>(
            DosErrorCode::InvalidFileHandle,
        ),
        write_spec(close_spec(fs, handle).0, handle).1 == Err::<u16, DosErrorCode>(
            DosErrorCode::InvalidFileHandle,
        ),
        seek_spec(close_spec(fs, handle).0, handle, offset, origin).1 == Err::<u32, DosErrorCode>(
            DosErrorCode::InvalidFileHandle,
        ),
{
    let fs2 = close_spec(fs, handle).0;
    assert(fs2.handles[handle - 1] is None);
    assert(!valid_handle(fs2, handle));
}

} // verus!
