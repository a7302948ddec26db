//! The exposition parser: Prometheus text-format lines become a structured
//! sample set. `# HELP` and `# TYPE` directives are recorded per metric
//! family; a sample line is a metric name, an optional label set, a decimal
//! value and an optional timestamp. Parsing is fail-fast: one malformed line
//! fails the whole parse, naming that line.

use vstd::prelude::*;

use crate::quantity::{
    digit_at, digits_end, digits_val, is_digit, lemma_digits_end, lemma_digits_end_is,
    lemma_digits_val_bounds, lemma_pow10_mono, pow10, pow10_u128,
};

verus! {

/// Why a line was rejected.
#[derive(Clone, Copy, Debug, PartialEq, Eq, Structural)]
pub enum ParseErrorKind {
    /// The line opens with neither a comment mark nor a metric name.
    BadName,
    /// The label block is malformed.
    BadLabels,
    /// Two labels on one line share a name.
    DuplicateLabel,
    /// The value token is not a decimal number of at most 18 digits.
    BadValue,
    /// The timestamp token is not an integer of at most 18 digits.
    BadTimestamp,
    /// Tokens follow the timestamp.
    TrailingTokens,
}

/// A parse failure, naming the offending line by its index.
#[derive(Clone, Copy, Debug, PartialEq, Eq, Structural)]
pub struct ParseError {
    pub line: usize,
    pub kind: ParseErrorKind,
}

/// A sample's decimal value: `(-1)^neg * mantissa / 10^scale`.
#[derive(Clone, Copy, Debug, PartialEq, Eq, Structural)]
pub struct SampleValue {
    pub neg: bool,
    pub mantissa: u64,
    pub scale: u32,
}

pub open spec fn is_space(c: char) -> bool {
    c == ' ' || c == '\t'
}

pub open spec fn is_name_char(c: char) -> bool {
    ('a' as u32 <= c as u32 && c as u32 <= 'z' as u32) || ('A' as u32 <= c as u32 && c as u32
        <= 'Z' as u32) || is_digit(c) || c == '_' || c == ':'
}

/// The end of the run of spaces that starts at `i`.
pub open spec fn spaces_end(s: Seq<char>, i: int) -> int
    decreases s.len() - i when 0 <= i <= s.len()
{
    if i < s.len() && is_space(s[i]) {
        spaces_end(s, i + 1)
    } else {
        i
    }
}

pub proof fn lemma_spaces_end(s: Seq<char>, i: int)
    requires
        0 <= i <= s.len(),
    ensures
        i <= spaces_end(s, i) <= s.len(),
        forall|j: int| i <= j < spaces_end(s, i) ==> is_space(#[trigger] s[j]),
        spaces_end(s, i) < s.len() ==> !is_space(s[spaces_end(s, i)]),
    decreases s.len() - i,
{
    if i < s.len() && is_space(s[i]) {
        lemma_spaces_end(s, i + 1);
    }
}

pub proof fn lemma_spaces_end_is(s: Seq<char>, start: int, i: int)
    requires
        0 <= start <= i <= s.len(),
        forall|j: int| start <= j < i ==> is_space(#[trigger] s[j]),
        i < s.len() ==> !is_space(s[i]),
    ensures
        spaces_end(s, start) == i,
    decreases i - start,
{
    if start < i {
        lemma_spaces_end_is(s, start + 1, i);
    }
}

/// The end of the run of non-space characters that starts at `i`.
pub open spec fn token_end(s: Seq<char>, i: int) -> int
    decreases s.len() - i when 0 <= i <= s.len()
{
    if i < s.len() && !is_space(s[i]) {
        token_end(s, i + 1)
    } else {
        i
    }
}

pub proof fn lemma_token_end(s: Seq<char>, i: int)
    requires
        0 <= i <= s.len(),
    ensures
        i <= token_end(s, i) <= s.len(),
        forall|j: int| i <= j < token_end(s, i) ==> !is_space(#[trigger] s[j]),
        token_end(s, i) < s.len() ==> is_space(s[token_end(s, i)]),
    decreases s.len() - i,
{
    if i < s.len() && !is_space(s[i]) {
        lemma_token_end(s, i + 1);
    }
}

pub proof fn lemma_token_end_is(s: Seq<char>, start: int, i: int)
    requires
        0 <= start <= i <= s.len(),
        forall|j: int| start <= j < i ==> !is_space(#[trigger] s[j]),
        i < s.len() ==> is_space(s[i]),
    ensures
        token_end(s, start) == i,
    decreases i - start,
{
    if start < i {
        lemma_token_end_is(s, start + 1, i);
    }
}

/// The end of the run of name characters that starts at `i`.
pub open spec fn name_end(s: Seq<char>, i: int) -> int
    decreases s.len() - i when 0 <= i <= s.len()
{
    if i < s.len() && is_name_char(s[i]) {
        name_end(s, i + 1)
    } else {
        i
    }
}

pub proof fn lemma_name_end(s: Seq<char>, i: int)
    requires
        0 <= i <= s.len(),
    ensures
        i <= name_end(s, i) <= s.len(),
        forall|j: int| i <= j < name_end(s, i) ==> is_name_char(#[trigger] s[j]),
        name_end(s, i) < s.len() ==> !is_name_char(s[name_end(s, i)]),
    decreases s.len() - i,
{
    if i < s.len() && is_name_char(s[i]) {
        lemma_name_end(s, i + 1);
    }
}

pub proof fn lemma_name_end_is(s: Seq<char>, start: int, i: int)
    requires
        0 <= start <= i <= s.len(),
        forall|j: int| start <= j < i ==> is_name_char(#[trigger] s[j]),
        i < s.len() ==> !is_name_char(s[i]),
    ensures
        name_end(s, start) == i,
    decreases i - start,
{
    if start < i {
        lemma_name_end_is(s, start + 1, i);
    }
}

/// Reads a quoted label value from `i` (just past the opening quote) to its
/// closing quote, honouring the `\"`, `\\` and `\n` escapes: the unescaped
/// text and the index just past the closing quote, or `None` when the string
/// is unterminated or an escape is unknown.
pub open spec fn scan_string(s: Seq<char>, i: int) -> Option<(Seq<char>, int)>
    decreases s.len() - i when 0 <= i <= s.len()
{
    if i >= s.len() {
        None
    } else if s[i] == '"' {
        Some((Seq::empty(), i + 1))
    } else if s[i] == '\\' {
        if i + 2 <= s.len() && (s[i + 1] == 'n' || s[i + 1] == '"' || s[i + 1] == '\\') {
            let e = if s[i + 1] == 'n' {
                '\n'
            } else {
                s[i + 1]
            };
            match scan_string(s, i + 2) {
                None => None,
                Some((v, k)) => Some((seq![e] + v, k)),
            }
        } else {
            None
        }
    } else {
        match scan_string(s, i + 1) {
            None => None,
            Some((v, k)) => Some((seq![s[i]] + v, k)),
        }
    }
}

pub proof fn lemma_scan_string_range(s: Seq<char>, i: int)
    requires
        0 <= i <= s.len(),
    ensures
        scan_string(s, i) matches Some((v, k)) ==> i < k <= s.len(),
    decreases s.len() - i,
{
    if i < s.len() {
        if s[i] == '"' {
        } else if s[i] == '\\' {
            if i + 2 <= s.len() && (s[i + 1] == 'n' || s[i + 1] == '"' || s[i + 1] == '\\') {
                lemma_scan_string_range(s, i + 2);
            }
        } else {
            lemma_scan_string_range(s, i + 1);
        }
    }
}

/// Reads the label block from `i` (just past the opening brace) to its
/// closing brace: the name/value pairs in order and the index just past the
/// brace, or `None` when the block is malformed.
pub open spec fn parse_labels(s: Seq<char>, i: int) -> Option<(Seq<(Seq<char>, Seq<char>)>, int)>
    decreases s.len() - i when 0 <= i <= s.len() via parse_labels_decreases
{
    let j = spaces_end(s, i);
    if j < s.len() && s[j] == '}' {
        Some((Seq::empty(), j + 1))
    } else {
        let ne = name_end(s, j);
        if ne == j || !(ne + 1 < s.len() && s[ne] == '=' && s[ne + 1] == '"') {
            None
        } else {
            match scan_string(s, ne + 2) {
                None => None,
                Some((v, k)) => {
                    let name = s.subrange(j, ne);
                    if k < s.len() && s[k] == ',' {
                        match parse_labels(s, k + 1) {
                            None => None,
                            Some((rest, end)) => Some((seq![(name, v)] + rest, end)),
                        }
                    } else if k < s.len() && s[k] == '}' {
                        Some((seq![(name, v)], k + 1))
                    } else {
                        None
                    }
                },
            }
        }
    }
}

#[via_fn]
proof fn parse_labels_decreases(s: Seq<char>, i: int) {
    lemma_spaces_end(s, i);
    let j = spaces_end(s, i);
    lemma_name_end(s, j);
    let ne = name_end(s, j);
    if 0 <= ne + 2 <= s.len() {
        lemma_scan_string_range(s, ne + 2);
    }
}

/// Two labels of the set share a name.
pub open spec fn has_duplicate_label(labels: Seq<(Seq<char>, Seq<char>)>) -> bool {
    exists|a: int, b: int|
        0 <= a < b < labels.len() && (#[trigger] labels[a]).0 == (#[trigger] labels[b]).0
}

/// The mapping a label list denotes, a later pair shadowing an earlier one
/// of the same name.
pub open spec fn labels_map(labels: Seq<(Seq<char>, Seq<char>)>) -> Map<Seq<char>, Seq<char>>
    decreases labels.len(),
{
    if labels.len() == 0 {
        Map::empty()
    } else {
        labels_map(labels.drop_last()).insert(labels.last().0, labels.last().1)
    }
}

/// A label set without duplicate names is an order-irrelevant mapping: a
/// name maps to a value exactly when the pair stands in the list, wherever
/// it stands. Two sets of the same pairs denote the same mapping.
pub proof fn lemma_labels_form_a_map(labels: Seq<(Seq<char>, Seq<char>)>)
    requires
        !has_duplicate_label(labels),
    ensures
        forall|k: Seq<char>, v: Seq<char>|
            #[trigger] labels_map(labels).contains_pair(k, v) <==> labels.contains((k, v)),
    decreases labels.len(),
{
    if labels.len() > 0 {
        let d = labels.drop_last();
        let last = labels.last();
        assert(forall|i: int| 0 <= i < d.len() ==> #[trigger] d[i] == labels[i]);
        assert(!has_duplicate_label(d)) by {
            if has_duplicate_label(d) {
                let (a, b) = choose|a: int, b: int|
                    0 <= a < b < d.len() && (#[trigger] d[a]).0 == (#[trigger] d[b]).0;
                assert(labels[a].0 == labels[b].0);
            }
        }
        lemma_labels_form_a_map(d);
        let md = labels_map(d);
        assert(labels_map(labels) == md.insert(last.0, last.1));
        assert forall|k: Seq<char>, v: Seq<char>|
            #[trigger] labels_map(labels).contains_pair(k, v) <==> labels.contains((k, v)) by {
            if labels_map(labels).contains_pair(k, v) {
                if k == last.0 {
                    assert(v == last.1);
                    assert(labels[labels.len() - 1] == (k, v));
                    assert(labels.contains((k, v)));
                } else {
                    assert(md.contains_pair(k, v));
                    assert(d.contains((k, v)));
                    let i = choose|i: int| 0 <= i < d.len() && d[i] == (k, v);
                    assert(labels[i] == (k, v));
                    assert(labels.contains((k, v)));
                }
            }
            if labels.contains((k, v)) {
                let i = choose|i: int| 0 <= i < labels.len() && labels[i] == (k, v);
                if i == labels.len() - 1 {
                    assert((k, v) == last);
                    assert(labels_map(labels).contains_pair(k, v));
                } else {
                    assert(d[i] == (k, v));
                    assert(d.contains((k, v)));
                    assert(md.contains_pair(k, v));
                    // A pair of an earlier index cannot share the last
                    // pair's name: that would be a duplicate.
                    assert(labels[i].0 == k);
                    if k == last.0 {
                        assert(labels[i].0 == labels[labels.len() - 1].0);
                        assert(false);
                    }
                    assert(labels_map(labels).contains_pair(k, v));
                }
            }
        }
    }
}

/// Reads the decimal value written between `start` and `end`: an optional
/// sign, then at most 18 digits with an optional decimal point.
pub open spec fn parse_number(s: Seq<char>, start: int, end: int) -> Option<SampleValue> {
    let i0: int = if start < end && (s[start] == '-' || s[start] == '+') {
        start + 1
    } else {
        start
    };
    let neg = start < end && s[start] == '-';
    let ie = digits_end(s, i0);
    if ie < end && s[ie] == '.' {
        let fe = digits_end(s, ie + 1);
        let ndigits = (ie - i0) + (fe - ie - 1);
        if fe == end && 1 <= ndigits <= 18 {
            Some(
                SampleValue {
                    neg,
                    mantissa: digits_val(
                        s.subrange(i0, ie) + s.subrange(ie + 1, fe),
                    ) as u64,
                    scale: (fe - ie - 1) as u32,
                },
            )
        } else {
            None
        }
    } else {
        if ie == end && 1 <= ie - i0 <= 18 {
            Some(SampleValue { neg, mantissa: digits_val(s.subrange(i0, ie)) as u64, scale: 0 })
        } else {
            None
        }
    }
}

/// Reads the integer timestamp written between `start` and `end`: an
/// optional sign, then at most 18 digits.
pub open spec fn parse_timestamp(s: Seq<char>, start: int, end: int) -> Option<i64> {
    let i0: int = if start < end && (s[start] == '-' || s[start] == '+') {
        start + 1
    } else {
        start
    };
    let neg = start < end && s[start] == '-';
    let ie = digits_end(s, i0);
    if ie == end && 1 <= ie - i0 <= 18 {
        let v = digits_val(s.subrange(i0, ie));
        Some(
            if neg {
                (-v) as i64
            } else {
                v as i64
            },
        )
    } else {
        None
    }
}

/// One parsed sample: metric name, labels in line order, value, timestamp.
pub ghost struct SampleModel {
    pub metric: Seq<char>,
    pub labels: Seq<(Seq<char>, Seq<char>)>,
    pub value: SampleValue,
    pub timestamp: Option<i64>,
}

/// What one line of exposition text means.
pub ghost enum LineModel {
    /// Nothing but whitespace.
    Blank,
    /// A comment that is neither a `# HELP` nor a `# TYPE` directive.
    Comment,
    /// A `# HELP metric text` directive.
    Doc { metric: Seq<char>, text: Seq<char> },
    /// A `# TYPE metric text` directive.
    TypeNote { metric: Seq<char>, text: Seq<char> },
    /// A sample.
    Sample(SampleModel),
    /// A malformed sample line.
    Bad(ParseErrorKind),
}

pub open spec fn is_help_keyword(kw: Seq<char>) -> bool {
    kw.len() == 4 && kw[0] == 'H' && kw[1] == 'E' && kw[2] == 'L' && kw[3] == 'P'
}

pub open spec fn is_type_keyword(kw: Seq<char>) -> bool {
    kw.len() == 4 && kw[0] == 'T' && kw[1] == 'Y' && kw[2] == 'P' && kw[3] == 'E'
}

/// What a comment line means: a `# HELP` or `# TYPE` directive with a metric
/// name is recorded; every other comment is ignored.
pub open spec fn parse_comment(line: Seq<char>) -> LineModel {
    let kw_start = spaces_end(line, 1);
    let kw_end = name_end(line, kw_start);
    let kw = line.subrange(kw_start, kw_end);
    if is_help_keyword(kw) || is_type_keyword(kw) {
        let m_start = spaces_end(line, kw_end);
        let m_end = name_end(line, m_start);
        if m_end == m_start {
            LineModel::Comment
        } else {
            let metric = line.subrange(m_start, m_end);
            let text = line.subrange(spaces_end(line, m_end), line.len() as int);
            if is_help_keyword(kw) {
                LineModel::Doc { metric, text }
            } else {
                LineModel::TypeNote { metric, text }
            }
        }
    } else {
        LineModel::Comment
    }
}

/// What a sample line means: a metric name, an optional brace-delimited
/// label block, a value token, and an optional timestamp token.
pub open spec fn parse_sample(line: Seq<char>) -> LineModel {
    let ne = name_end(line, 0);
    if ne == 0 {
        LineModel::Bad(ParseErrorKind::BadName)
    } else {
        let metric = line.subrange(0, ne);
        let lbl = if ne < line.len() && line[ne] == '{' {
            parse_labels(line, ne + 1)
        } else {
            Some((Seq::<(Seq<char>, Seq<char>)>::empty(), ne))
        };
        match lbl {
            None => LineModel::Bad(ParseErrorKind::BadLabels),
            Some((labels, after)) => {
                if has_duplicate_label(labels) {
                    LineModel::Bad(ParseErrorKind::DuplicateLabel)
                } else {
                    let vs = spaces_end(line, after);
                    if vs == after || vs >= line.len() {
                        LineModel::Bad(ParseErrorKind::BadValue)
                    } else {
                        let ve = token_end(line, vs);
                        match parse_number(line, vs, ve) {
                            None => LineModel::Bad(ParseErrorKind::BadValue),
                            Some(value) => {
                                let ts = spaces_end(line, ve);
                                if ts >= line.len() {
                                    LineModel::Sample(
                                        SampleModel { metric, labels, value, timestamp: None },
                                    )
                                } else {
                                    let te = token_end(line, ts);
                                    match parse_timestamp(line, ts, te) {
                                        None => LineModel::Bad(ParseErrorKind::BadTimestamp),
                                        Some(t) => {
                                            if spaces_end(line, te) >= line.len() {
                                                LineModel::Sample(
                                                    SampleModel {
                                                        metric,
                                                        labels,
                                                        value,
                                                        timestamp: Some(t),
                                                    },
                                                )
                                            } else {
                                                LineModel::Bad(ParseErrorKind::TrailingTokens)
                                            }
                                        },
                                    }
                                }
                            },
                        }
                    }
                }
            },
        }
    }
}

/// What one line means: blank, comment or directive, sample, or an error.
pub open spec fn spec_parse_line(line: Seq<char>) -> LineModel {
    if spaces_end(line, 0) == line.len() {
        LineModel::Blank
    } else if line[0] == '#' {
        parse_comment(line)
    } else {
        parse_sample(line)
    }
}

/// Whether the character at `i` is a space or a tab, false past the end.
fn space_at(s: &str, i: usize) -> (r: bool)
    ensures
        r == (i < s@.len() && is_space(s@[i as int])),
{
    let n = s.unicode_len();
    if i < n {
        let c = s.get_char(i);
        c == ' ' || c == '\t'
    } else {
        false
    }
}

/// Whether the character at `i` may stand in a metric or label name,
/// false past the end.
fn name_char_at(s: &str, i: usize) -> (r: bool)
    ensures
        r == (i < s@.len() && is_name_char(s@[i as int])),
{
    let n = s.unicode_len();
    if i < n {
        let c = s.get_char(i);
        ('a' as u32 <= c as u32 && c as u32 <= 'z' as u32) || ('A' as u32 <= c as u32 && c as u32
            <= 'Z' as u32) || ('0' as u32 <= c as u32 && c as u32 <= '9' as u32) || c == '_' || c
            == ':'
    } else {
        false
    }
}

fn scan_spaces(s: &str, i: usize) -> (r: usize)
    requires
        i <= s@.len(),
    ensures
        r == spaces_end(s@, i as int),
        i <= r <= s@.len(),
{
    let mut j = i;
    let n = s.unicode_len();
    while space_at(s, j)
        invariant
            i <= j <= n == s@.len(),
            forall|k: int| i <= k < j ==> is_space(#[trigger] s@[k]),
        decreases n - j,
    {
        j = j + 1;
    }
    proof {
        lemma_spaces_end_is(s@, i as int, j as int);
    }
    j
}

fn scan_token(s: &str, i: usize) -> (r: usize)
    requires
        i <= s@.len(),
    ensures
        r == token_end(s@, i as int),
        i <= r <= s@.len(),
{
    let mut j = i;
    let n = s.unicode_len();
    while j < n && !space_at(s, j)
        invariant
            i <= j <= n == s@.len(),
            forall|k: int| i <= k < j ==> !is_space(#[trigger] s@[k]),
        decreases n - j,
    {
        j = j + 1;
    }
    proof {
        lemma_token_end_is(s@, i as int, j as int);
    }
    j
}

fn scan_name(s: &str, i: usize) -> (r: usize)
    requires
        i <= s@.len(),
    ensures
        r == name_end(s@, i as int),
        i <= r <= s@.len(),
{
    let mut j = i;
    let n = s.unicode_len();
    while name_char_at(s, j)
        invariant
            i <= j <= n == s@.len(),
            forall|k: int| i <= k < j ==> is_name_char(#[trigger] s@[k]),
        decreases n - j,
    {
        j = j + 1;
    }
    proof {
        lemma_name_end_is(s@, i as int, j as int);
    }
    j
}

fn scan_digits(s: &str, i: usize) -> (r: usize)
    requires
        i <= s@.len(),
    ensures
        r == digits_end(s@, i as int),
        i <= r <= s@.len(),
{
    let mut j = i;
    let n = s.unicode_len();
    while digit_at(s, j)
        invariant
            i <= j <= n == s@.len(),
            forall|k: int| i <= k < j ==> is_digit(#[trigger] s@[k]),
        decreases n - j,
    {
        j = j + 1;
    }
    proof {
        lemma_digits_end_is(s@, i as int, j as int);
    }
    j
}

/// Reads the number the digits at `a..b` and `c..d` write, the former more
/// significant.
fn digits_value_concat(s: &str, a: usize, b: usize, c: usize, d: usize) -> (r: u64)
    requires
        a <= b <= s@.len(),
        c <= d <= s@.len(),
        (b - a) + (d - c) <= 18,
        forall|j: int| a <= j < b ==> is_digit(#[trigger] s@[j]),
        forall|j: int| c <= j < d ==> is_digit(#[trigger] s@[j]),
    ensures
        r == digits_val(s@.subrange(a as int, b as int) + s@.subrange(c as int, d as int)),
{
    let ghost sv = s@;
    let mut m: u64 = 0;
    let mut j = a;
    proof {
        assert(sv.subrange(a as int, a as int) =~= Seq::<char>::empty());
    }
    while j < b
        invariant
            sv == s@,
            a <= j <= b <= sv.len(),
            c <= d <= sv.len(),
            (b - a) + (d - c) <= 18,
            forall|k: int| a <= k < b ==> is_digit(#[trigger] sv[k]),
            forall|k: int| c <= k < d ==> is_digit(#[trigger] sv[k]),
            m == digits_val(sv.subrange(a as int, j as int)),
            m < pow10((j - a) as nat),
        decreases b - j,
    {
        let ch = s.get_char(j);
        let dg = (ch as u32 - '0' as u32) as u64;
        proof {
            reveal_with_fuel(pow10, 20);
            lemma_pow10_mono((j - a + 1) as nat, 18);
            assert(m * 10 + dg < pow10((j - a + 1) as nat)) by (nonlinear_arith)
                requires
                    m < pow10((j - a) as nat),
                    dg < 10,
                    pow10((j - a + 1) as nat) == 10 * pow10((j - a) as nat),
            ;
            let pre = sv.subrange(a as int, j as int);
            let post = sv.subrange(a as int, j + 1);
            assert(post.drop_last() =~= pre);
            assert(post.last() == sv[j as int]);
        }
        m = m * 10 + dg;
        j = j + 1;
    }
    let ghost intpart = sv.subrange(a as int, b as int);
    let mut k = c;
    proof {
        assert(intpart + sv.subrange(c as int, c as int) =~= intpart);
    }
    while k < d
        invariant
            sv == s@,
            a <= b <= sv.len(),
            c <= k <= d <= sv.len(),
            (b - a) + (d - c) <= 18,
            intpart == sv.subrange(a as int, b as int),
            forall|x: int| c <= x < d ==> is_digit(#[trigger] sv[x]),
            m == digits_val(intpart + sv.subrange(c as int, k as int)),
            m < pow10(((b - a) + (k - c)) as nat),
        decreases d - k,
    {
        let ch = s.get_char(k);
        let dg = (ch as u32 - '0' as u32) as u64;
        proof {
            reveal_with_fuel(pow10, 20);
            lemma_pow10_mono(((b - a) + (k - c) + 1) as nat, 18);
            assert(m * 10 + dg < pow10(((b - a) + (k - c) + 1) as nat)) by (nonlinear_arith)
                requires
                    m < pow10(((b - a) + (k - c)) as nat),
                    dg < 10,
                    pow10(((b - a) + (k - c) + 1) as nat) == 10 * pow10(
                        ((b - a) + (k - c)) as nat,
                    ),
            ;
            let pre = intpart + sv.subrange(c as int, k as int);
            let post = intpart + sv.subrange(c as int, k + 1);
            assert(post.drop_last() =~= pre);
            assert(post.last() == sv[k as int]);
        }
        m = m * 10 + dg;
        k = k + 1;
    }
    m
}

/// Reads the decimal value written between `start` and `end`.
fn parse_number_exec(s: &str, start: usize, end: usize) -> (r: Option<SampleValue>)
    requires
        start <= end <= s@.len(),
        end < s@.len() ==> is_space(s@[end as int]),
    ensures
        r == parse_number(s@, start as int, end as int),
{
    let ghost sv = s@;
    let mut i0 = start;
    let mut neg = false;
    if start < end {
        let c = s.get_char(start);
        if c == '-' {
            neg = true;
            i0 = start + 1;
        } else if c == '+' {
            i0 = start + 1;
        }
    }
    let ie = scan_digits(s, i0);
    proof {
        lemma_digits_end(sv, i0 as int);
        if ie > end {
            assert(is_digit(sv[end as int]));
        }
        assert(ie <= end);
    }
    if ie < end && s.get_char(ie) == '.' {
        let fe = scan_digits(s, ie + 1);
        proof {
            lemma_digits_end(sv, ie + 1);
            if fe > end {
                assert(is_digit(sv[end as int]));
            }
            assert(fe <= end);
        }
        let ndigits = (ie - i0) + (fe - ie - 1);
        if fe == end && 1 <= ndigits && ndigits <= 18 {
            let mantissa = digits_value_concat(s, i0, ie, ie + 1, fe);
            Some(SampleValue { neg, mantissa, scale: (fe - ie - 1) as u32 })
        } else {
            None
        }
    } else {
        if ie == end && 1 <= ie - i0 && ie - i0 <= 18 {
            proof {
                let empty = sv.subrange(ie as int, ie as int);
                assert(sv.subrange(i0 as int, ie as int) + empty =~= sv.subrange(
                    i0 as int,
                    ie as int,
                ));
            }
            let mantissa = digits_value_concat(s, i0, ie, ie, ie);
            Some(SampleValue { neg, mantissa, scale: 0 })
        } else {
            None
        }
    }
}

/// Reads the integer timestamp written between `start` and `end`.
fn parse_timestamp_exec(s: &str, start: usize, end: usize) -> (r: Option<i64>)
    requires
        start <= end <= s@.len(),
        end < s@.len() ==> is_space(s@[end as int]),
    ensures
        r == parse_timestamp(s@, start as int, end as int),
{
    let ghost sv = s@;
    let mut i0 = start;
    let mut neg = false;
    if start < end {
        let c = s.get_char(start);
        if c == '-' {
            neg = true;
            i0 = start + 1;
        } else if c == '+' {
            i0 = start + 1;
        }
    }
    let ie = scan_digits(s, i0);
    proof {
        lemma_digits_end(sv, i0 as int);
        if ie > end {
            assert(is_digit(sv[end as int]));
        }
        assert(ie <= end);
    }
    if ie == end && 1 <= ie - i0 && ie - i0 <= 18 {
        proof {
            let empty = sv.subrange(ie as int, ie as int);
            assert(sv.subrange(i0 as int, ie as int) + empty =~= sv.subrange(
                i0 as int,
                ie as int,
            ));
            lemma_digits_val_bounds(sv.subrange(i0 as int, ie as int));
            reveal_with_fuel(pow10, 20);
            lemma_pow10_mono((ie - i0) as nat, 18);
        }
        let v = digits_value_concat(s, i0, ie, ie, ie);
        if neg {
            Some(-(v as i64))
        } else {
            Some(v as i64)
        }
    } else {
        None
    }
}

/// One label of a sample: its name and its unescaped value.
#[derive(Debug)]
pub struct Label {
    pub name: String,
    pub value: String,
}

impl View for Label {
    type V = (Seq<char>, Seq<char>);

    open spec fn view(&self) -> (Seq<char>, Seq<char>) {
        (self.name@, self.value@)
    }
}

pub open spec fn labels_view(ls: Seq<Label>) -> Seq<(Seq<char>, Seq<char>)> {
    ls.map_values(|l: Label| l@)
}

/// Reads a quoted label value starting just past its opening quote.
fn scan_string_exec(s: &str, i: usize) -> (r: Option<(String, usize)>)
    requires
        i <= s@.len(),
    ensures
        match r {
            Some(p) => scan_string(s@, i as int) == Some((p.0@, p.1 as int)) && i < p.1
                <= s@.len(),
            None => scan_string(s@, i as int) is None,
        },
{
    let ghost sv = s@;
    let n = s.unicode_len();
    let mut acc = String::new();
    let mut j = i;
    loop
        invariant
            sv == s@,
            i <= j <= n == sv.len(),
            ({
                let whole = scan_string(sv, i as int);
                let rest = scan_string(sv, j as int);
                match rest {
                    Some((v, k)) => whole == Some((acc@ + v, k)),
                    None => whole is None,
                }
            }),
        decreases n - j,
    {
        if j >= n {
            return None;
        }
        let c = s.get_char(j);
        if c == '"' {
            proof {
                assert(acc@ + Seq::<char>::empty() =~= acc@);
            }
            return Some((acc, j + 1));
        }
        if c == '\\' {
            if j + 1 < n {
                let c2 = s.get_char(j + 1);
                let piece: &'static str;
                if c2 == 'n' {
                    piece = "\n";
                    proof {
                        reveal_strlit("\n");
                    }
                } else if c2 == '"' {
                    piece = "\"";
                    proof {
                        reveal_strlit("\"");
                    }
                } else if c2 == '\\' {
                    piece = "\\";
                    proof {
                        reveal_strlit("\\");
                    }
                } else {
                    return None;
                }
                let ghost e: char = if c2 == 'n' {
                    '\n'
                } else {
                    c2
                };
                proof {
                    assert(piece@ =~= seq![e]);
                    let rest = scan_string(sv, j + 2);
                    match rest {
                        Some((v, k)) => {
                            assert((acc@ + seq![e]) + v =~= acc@ + (seq![e] + v));
                        },
                        None => {},
                    }
                }
                acc.append(piece);
                j = j + 2;
            } else {
                return None;
            }
        } else {
            let piece = s.substring_char(j, j + 1);
            proof {
                assert(piece@ =~= seq![sv[j as int]]);
                let rest = scan_string(sv, j + 1);
                match rest {
                    Some((v, k)) => {
                        assert((acc@ + seq![sv[j as int]]) + v =~= acc@ + (seq![sv[j as int]]
                            + v));
                    },
                    None => {},
                }
            }
            acc.append(piece);
            j = j + 1;
        }
    }
}

/// Reads the label block starting just past its opening brace.
fn parse_labels_exec(s: &str, i: usize) -> (r: Option<(Vec<Label>, usize)>)
    requires
        i <= s@.len(),
    ensures
        match r {
            Some(p) => parse_labels(s@, i as int) == Some((labels_view(p.0@), p.1 as int)) && p.1
                <= s@.len(),
            None => parse_labels(s@, i as int) is None,
        },
{
    let ghost sv = s@;
    let n = s.unicode_len();
    let mut acc: Vec<Label> = Vec::new();
    let mut j = i;
    proof {
        assert(labels_view(acc@) =~= Seq::<(Seq<char>, Seq<char>)>::empty());
    }
    loop
        invariant
            sv == s@,
            i <= j <= n == sv.len(),
            ({
                let whole = parse_labels(sv, i as int);
                let rest = parse_labels(sv, j as int);
                match rest {
                    Some((more, end)) => whole == Some((labels_view(acc@) + more, end)),
                    None => whole is None,
                }
            }),
        decreases n - j,
    {
        let j2 = scan_spaces(s, j);
        if j2 < n && s.get_char(j2) == '}' {
            proof {
                assert(labels_view(acc@) + Seq::<(Seq<char>, Seq<char>)>::empty() =~= labels_view(
                    acc@,
                ));
            }
            return Some((acc, j2 + 1));
        }
        let ne = scan_name(s, j2);
        if ne == j2 {
            return None;
        }
        if ne >= n || ne + 1 >= n {
            return None;
        }
        if !(s.get_char(ne) == '=' && s.get_char(ne + 1) == '"') {
            return None;
        }
        match scan_string_exec(s, ne + 2) {
            None => {
                return None;
            },
            Some((value, k)) => {
                let name = String::from_str(s.substring_char(j2, ne));
                let ghost pair = (sv.subrange(j2 as int, ne as int), value@);
                if k < n && s.get_char(k) == ',' {
                    proof {
                        let rest2 = parse_labels(sv, k + 1);
                        match rest2 {
                            Some((more, end)) => {
                                assert(labels_view(acc@.push(Label { name, value })) =~= labels_view(
                                    acc@,
                                ).push(pair));
                                assert((labels_view(acc@) + (seq![pair] + more)) =~= (labels_view(
                                    acc@,
                                ).push(pair) + more));
                            },
                            None => {},
                        }
                    }
                    acc.push(Label { name, value });
                    j = k + 1;
                } else if k < n && s.get_char(k) == '}' {
                    proof {
                        assert(labels_view(acc@.push(Label { name, value })) =~= labels_view(acc@)
                            + seq![pair]);
                    }
                    acc.push(Label { name, value });
                    return Some((acc, k + 1));
                } else {
                    return None;
                }
            },
        }
    }
}

/// One parsed sample line.
#[derive(Debug)]
pub struct Sample {
    pub metric: String,
    pub labels: Vec<Label>,
    pub value: SampleValue,
    pub timestamp: Option<i64>,
}

impl View for Sample {
    type V = SampleModel;

    open spec fn view(&self) -> SampleModel {
        SampleModel {
            metric: self.metric@,
            labels: labels_view(self.labels@),
            value: self.value,
            timestamp: self.timestamp,
        }
    }
}

/// A `# HELP` or `# TYPE` note: the metric family it names and its text.
#[derive(Debug)]
pub struct FamilyNote {
    pub metric: String,
    pub text: String,
}

impl View for FamilyNote {
    type V = (Seq<char>, Seq<char>);

    open spec fn view(&self) -> (Seq<char>, Seq<char>) {
        (self.metric@, self.text@)
    }
}

/// What one line of exposition text parsed to.
#[derive(Debug)]
pub enum ParsedLine {
    Blank,
    Comment,
    Doc(FamilyNote),
    TypeNote(FamilyNote),
    Sample(Sample),
    Bad(ParseErrorKind),
}

impl View for ParsedLine {
    type V = LineModel;

    open spec fn view(&self) -> LineModel {
        match self {
            ParsedLine::Blank => LineModel::Blank,
            ParsedLine::Comment => LineModel::Comment,
            ParsedLine::Doc(f) => LineModel::Doc { metric: f.metric@, text: f.text@ },
            ParsedLine::TypeNote(f) => LineModel::TypeNote { metric: f.metric@, text: f.text@ },
            ParsedLine::Sample(sm) => LineModel::Sample(sm@),
            ParsedLine::Bad(k) => LineModel::Bad(*k),
        }
    }
}

/// Whether two labels of the set share a name.
fn labels_have_duplicate(ls: &Vec<Label>) -> (r: bool)
    ensures
        r == has_duplicate_label(labels_view(ls@)),
{
    let ghost lv = labels_view(ls@);
    let n = ls.len();
    let mut a: usize = 0;
    while a < n
        invariant
            lv == labels_view(ls@),
            a <= n == ls.len(),
            forall|x: int, y: int|
                0 <= x < y < n && x < a ==> (#[trigger] lv[x]).0 != (#[trigger] lv[y]).0,
        decreases n - a,
    {
        let mut b: usize = a + 1;
        while b < n
            invariant
                lv == labels_view(ls@),
                a < b <= n == ls.len() || (a + 1 > n && b == a + 1),
                a < n,
                forall|y: int| a < y < b ==> (#[trigger] lv[y]).0 != lv[a as int].0,
            decreases n - b,
        {
            if ls[a].name == ls[b].name {
                proof {
                    assert(lv[a as int].0 == lv[b as int].0);
                }
                return true;
            }
            b = b + 1;
        }
        a = a + 1;
    }
    false
}

/// Parses one line of exposition text.
pub fn parse_line(line: &str) -> (r: ParsedLine)
    ensures
        r@ == spec_parse_line(line@),
{
    let ghost lv = line@;
    let n = line.unicode_len();
    let se = scan_spaces(line, 0);
    if se == n {
        return ParsedLine::Blank;
    }
    proof {
        lemma_spaces_end(lv, 0);
    }
    if line.get_char(0) == '#' {
        // A comment: record `# HELP` and `# TYPE` directives, ignore the rest.
        let kws = scan_spaces(line, 1);
        let kwe = scan_name(line, kws);
        let ghost kw = lv.subrange(kws as int, kwe as int);
        proof {
            assert(forall|x: int| 0 <= x < kw.len() ==> #[trigger] kw[x] == lv[kws + x]);
        }
        let help: bool;
        let tynote: bool;
        if kwe - kws == 4 {
            help = line.get_char(kws) == 'H' && line.get_char(kws + 1) == 'E' && line.get_char(
                kws + 2,
            ) == 'L' && line.get_char(kws + 3) == 'P';
            tynote = line.get_char(kws) == 'T' && line.get_char(kws + 1) == 'Y' && line.get_char(
                kws + 2,
            ) == 'P' && line.get_char(kws + 3) == 'E';
        } else {
            help = false;
            tynote = false;
        }
        proof {
            assert(help == is_help_keyword(kw));
            assert(tynote == is_type_keyword(kw));
        }
        if help || tynote {
            let ms = scan_spaces(line, kwe);
            let me = scan_name(line, ms);
            if me == ms {
                return ParsedLine::Comment;
            }
            let metric = String::from_str(line.substring_char(ms, me));
            let ts = scan_spaces(line, me);
            let text = String::from_str(line.substring_char(ts, n));
            if help {
                return ParsedLine::Doc(FamilyNote { metric, text });
            }
            return ParsedLine::TypeNote(FamilyNote { metric, text });
        }
        return ParsedLine::Comment;
    }
    // A sample line: name, optional labels, value, optional timestamp.
    let ne = scan_name(line, 0);
    if ne == 0 {
        return ParsedLine::Bad(ParseErrorKind::BadName);
    }
    let metric = String::from_str(line.substring_char(0, ne));
    let labels: Vec<Label>;
    let after: usize;
    if ne < n && line.get_char(ne) == '{' {
        match parse_labels_exec(line, ne + 1) {
            None => {
                return ParsedLine::Bad(ParseErrorKind::BadLabels);
            },
            Some((ls, end)) => {
                labels = ls;
                after = end;
            },
        }
    } else {
        labels = Vec::new();
        after = ne;
        proof {
            assert(labels_view(labels@) =~= Seq::<(Seq<char>, Seq<char>)>::empty());
        }
    }
    if labels_have_duplicate(&labels) {
        return ParsedLine::Bad(ParseErrorKind::DuplicateLabel);
    }
    let vs = scan_spaces(line, after);
    if vs == after || vs >= n {
        return ParsedLine::Bad(ParseErrorKind::BadValue);
    }
    let ve = scan_token(line, vs);
    proof {
        lemma_token_end(lv, vs as int);
    }
    match parse_number_exec(line, vs, ve) {
        None => ParsedLine::Bad(ParseErrorKind::BadValue),
        Some(value) => {
            let ts = scan_spaces(line, ve);
            if ts >= n {
                return ParsedLine::Sample(Sample { metric, labels, value, timestamp: None });
            }
            let te = scan_token(line, ts);
            proof {
                lemma_token_end(lv, ts as int);
            }
            match parse_timestamp_exec(line, ts, te) {
                None => ParsedLine::Bad(ParseErrorKind::BadTimestamp),
                Some(t) => {
                    let fin = scan_spaces(line, te);
                    if fin >= n {
                        ParsedLine::Sample(
                            Sample { metric, labels, value, timestamp: Some(t) },
                        )
                    } else {
                        ParsedLine::Bad(ParseErrorKind::TrailingTokens)
                    }
                },
            }
        },
    }
}

/// A parsed sample set: samples in line order, with the `# HELP` and
/// `# TYPE` notes seen along the way.
pub ghost struct ScrapeModel {
    pub docs: Seq<(Seq<char>, Seq<char>)>,
    pub types: Seq<(Seq<char>, Seq<char>)>,
    pub samples: Seq<SampleModel>,
}

pub open spec fn empty_scrape() -> ScrapeModel {
    ScrapeModel { docs: Seq::empty(), types: Seq::empty(), samples: Seq::empty() }
}

/// What one well-formed line adds to a scrape.
pub open spec fn apply_line(m: ScrapeModel, k: LineModel) -> ScrapeModel {
    match k {
        LineModel::Blank => m,
        LineModel::Comment => m,
        LineModel::Doc { metric, text } => ScrapeModel { docs: m.docs.push((metric, text)), ..m },
        LineModel::TypeNote { metric, text } => ScrapeModel {
            types: m.types.push((metric, text)),
            ..m
        },
        LineModel::Sample(sm) => ScrapeModel { samples: m.samples.push(sm), ..m },
        LineModel::Bad(_) => m,
    }
}

/// What parsing a line sequence returns: the folded scrape, or `None` as
/// soon as any line is malformed.
pub open spec fn spec_parse_lines(lines: Seq<Seq<char>>) -> Option<ScrapeModel>
    decreases lines.len(),
{
    if lines.len() == 0 {
        Some(empty_scrape())
    } else {
        match spec_parse_lines(lines.drop_last()) {
            None => None,
            Some(m) => match spec_parse_line(lines.last()) {
                LineModel::Bad(_) => None,
                k => Some(apply_line(m, k)),
            },
        }
    }
}

/// A malformed line anywhere fails the whole parse.
pub proof fn lemma_parse_lines_bad(lines: Seq<Seq<char>>, i: int)
    requires
        0 <= i < lines.len(),
        spec_parse_line(lines[i]) matches LineModel::Bad(_),
    ensures
        spec_parse_lines(lines) is None,
    decreases lines.len(),
{
    if i == lines.len() - 1 {
        assert(lines.last() == lines[i]);
    } else {
        assert(lines.drop_last()[i] == lines[i]);
        lemma_parse_lines_bad(lines.drop_last(), i);
    }
}

pub open spec fn notes_view(ns: Seq<FamilyNote>) -> Seq<(Seq<char>, Seq<char>)> {
    ns.map_values(|f: FamilyNote| f@)
}

pub open spec fn samples_view(ss: Seq<Sample>) -> Seq<SampleModel> {
    ss.map_values(|s: Sample| s@)
}

pub open spec fn lines_view(ls: Seq<String>) -> Seq<Seq<char>> {
    ls.map_values(|l: String| l@)
}

/// A parsed sample set.
#[derive(Debug)]
pub struct Scrape {
    pub docs: Vec<FamilyNote>,
    pub types: Vec<FamilyNote>,
    pub samples: Vec<Sample>,
}

impl View for Scrape {
    type V = ScrapeModel;

    open spec fn view(&self) -> ScrapeModel {
        ScrapeModel {
            docs: notes_view(self.docs@),
            types: notes_view(self.types@),
            samples: samples_view(self.samples@),
        }
    }
}

/// Parses a sequence of exposition lines into a scrape. Fail-fast: the
/// error names the first malformed line, and nothing is returned for the
/// rest.
pub fn parse_lines(lines: &Vec<String>) -> (r: Result<Scrape, ParseError>)
    ensures
        match r {
            Ok(sc) => spec_parse_lines(lines_view(lines@)) == Some(sc@),
            Err(e) => {
                &&& spec_parse_lines(lines_view(lines@)) is None
                &&& e.line < lines@.len()
                &&& spec_parse_line(lines@[e.line as int]@) == LineModel::Bad(e.kind)
                &&& forall|j: int|
                    0 <= j < e.line ==> !(spec_parse_line(
                        #[trigger] lines@[j]@,
                    ) matches LineModel::Bad(_))
            },
        },
{
    let ghost lv = lines_view(lines@);
    let n = lines.len();
    let mut docs: Vec<FamilyNote> = Vec::new();
    let mut types: Vec<FamilyNote> = Vec::new();
    let mut samples: Vec<Sample> = Vec::new();
    let mut i: usize = 0;
    proof {
        assert(lv.subrange(0, 0) =~= Seq::<Seq<char>>::empty());
        assert(notes_view(docs@) =~= Seq::<(Seq<char>, Seq<char>)>::empty());
        assert(notes_view(types@) =~= Seq::<(Seq<char>, Seq<char>)>::empty());
        assert(samples_view(samples@) =~= Seq::<SampleModel>::empty());
    }
    while i < n
        invariant
            lv == lines_view(lines@),
            i <= n == lines@.len(),
            spec_parse_lines(lv.subrange(0, i as int)) == Some(
                ScrapeModel {
                    docs: notes_view(docs@),
                    types: notes_view(types@),
                    samples: samples_view(samples@),
                },
            ),
            forall|j: int|
                0 <= j < i ==> !(spec_parse_line(#[trigger] lv[j]) matches LineModel::Bad(_)),
        decreases n - i,
    {
        let ghost pre = lv.subrange(0, i as int);
        let ghost post = lv.subrange(0, i + 1);
        proof {
            assert(post.drop_last() =~= pre);
            assert(post.last() == lv[i as int]);
            assert(lv[i as int] == lines@[i as int]@);
        }
        let parsed = parse_line(lines[i].as_str());
        match parsed {
            ParsedLine::Blank => {},
            ParsedLine::Comment => {},
            ParsedLine::Doc(f) => {
                proof {
                    assert(notes_view(docs@.push(f)) =~= notes_view(docs@).push(f@));
                }
                docs.push(f);
            },
            ParsedLine::TypeNote(f) => {
                proof {
                    assert(notes_view(types@.push(f)) =~= notes_view(types@).push(f@));
                }
                types.push(f);
            },
            ParsedLine::Sample(sm) => {
                proof {
                    assert(samples_view(samples@.push(sm)) =~= samples_view(samples@).push(sm@));
                }
                samples.push(sm);
            },
            ParsedLine::Bad(k) => {
                proof {
                    lemma_parse_lines_bad(lv, i as int);
                    assert forall|j: int| 0 <= j < i implies !(spec_parse_line(
                        #[trigger] lines@[j]@,
                    ) matches LineModel::Bad(_)) by {
                        assert(lv[j] == lines@[j]@);
                    }
                }
                return Err(ParseError { line: i, kind: k });
            },
        }
        i = i + 1;
    }
    proof {
        assert(lv.subrange(0, n as int) =~= lv);
    }
    Ok(Scrape { docs, types, samples })
}

/// Concatenation of two scrapes, fields pointwise.
pub open spec fn merge_scrapes(a: ScrapeModel, b: ScrapeModel) -> ScrapeModel {
    ScrapeModel {
        docs: a.docs + b.docs,
        types: a.types + b.types,
        samples: a.samples + b.samples,
    }
}

/// Parsing is compositional: the parse of two line blocks in sequence is
/// the merge of the blocks' own parses, and fails exactly when one of them
/// fails. So reordering whole blocks permutes, but never changes, each
/// block's contribution to the sample set.
pub proof fn lemma_parse_lines_append(l1: Seq<Seq<char>>, l2: Seq<Seq<char>>)
    ensures
        ({
            let r1 = spec_parse_lines(l1);
            let r2 = spec_parse_lines(l2);
            let r = spec_parse_lines(l1 + l2);
            match (r1, r2) {
                (Some(a), Some(b)) => r == Some(merge_scrapes(a, b)),
                _ => r is None,
            }
        }),
    decreases l2.len(),
{
    if l2.len() == 0 {
        assert(l1 + l2 =~= l1);
        match spec_parse_lines(l1) {
            Some(a) => {
                assert(merge_scrapes(a, empty_scrape()).docs =~= a.docs);
                assert(merge_scrapes(a, empty_scrape()).types =~= a.types);
                assert(merge_scrapes(a, empty_scrape()).samples =~= a.samples);
            },
            None => {},
        }
    } else {
        let d = l2.drop_last();
        let x = l2.last();
        lemma_parse_lines_append(l1, d);
        let w = l1 + l2;
        assert(w.len() > 0);
        assert(w.drop_last() =~= l1 + d);
        assert(w.last() == x);
        match (spec_parse_lines(l1), spec_parse_lines(d)) {
            (Some(a), Some(b)) => {
                match spec_parse_line(x) {
                    LineModel::Bad(_) => {},
                    k => {
                        let ab = merge_scrapes(a, b);
                        assert(apply_line(ab, k).docs =~= merge_scrapes(a, apply_line(b, k)).docs);
                        assert(apply_line(ab, k).types =~= merge_scrapes(
                            a,
                            apply_line(b, k),
                        ).types);
                        assert(apply_line(ab, k).samples =~= merge_scrapes(
                            a,
                            apply_line(b, k),
                        ).samples);
                    },
                }
            },
            _ => {},
        }
    }
}

/// The samples of one metric family, in scrape order.
pub open spec fn family_samples(m: ScrapeModel, metric: Seq<char>) -> Seq<SampleModel> {
    m.samples.filter(|s: SampleModel| s.metric == metric)
}

proof fn lemma_filter_none<A>(s: Seq<A>, pred: spec_fn(A) -> bool)
    requires
        forall|i: int| 0 <= i < s.len() ==> !pred(#[trigger] s[i]),
    ensures
        s.filter(pred) =~= Seq::<A>::empty(),
    decreases s.len(),
{
    reveal(Seq::filter);
    if s.len() != 0 {
        assert(forall|i: int|
            0 <= i < s.drop_last().len() ==> #[trigger] s.drop_last()[i] == s[i]);
        lemma_filter_none(s.drop_last(), pred);
        assert(!pred(s.last()));
    }
}

/// Reordering unrelated blocks leaves a family's sample content alone: when
/// every sample of a family comes from one block, the two blocks parsed in
/// either order carry exactly that block's samples of the family, in their
/// own order.
pub proof fn lemma_family_unmoved_by_block_swap(
    l1: Seq<Seq<char>>,
    l2: Seq<Seq<char>>,
    a: ScrapeModel,
    b: ScrapeModel,
    metric: Seq<char>,
)
    requires
        spec_parse_lines(l1) == Some(a),
        spec_parse_lines(l2) == Some(b),
        forall|i: int| 0 <= i < b.samples.len() ==> (#[trigger] b.samples[i]).metric != metric,
    ensures
        spec_parse_lines(l1 + l2) is Some,
        spec_parse_lines(l2 + l1) is Some,
        family_samples(spec_parse_lines(l1 + l2).unwrap(), metric) == family_samples(a, metric),
        family_samples(spec_parse_lines(l2 + l1).unwrap(), metric) == family_samples(a, metric),
{
    let pred = |s: SampleModel| s.metric == metric;
    lemma_parse_lines_append(l1, l2);
    lemma_parse_lines_append(l2, l1);
    Seq::filter_distributes_over_add(a.samples, b.samples, pred);
    Seq::filter_distributes_over_add(b.samples, a.samples, pred);
    lemma_filter_none(b.samples, pred);
    assert(a.samples.filter(pred) + b.samples.filter(pred) =~= a.samples.filter(pred));
    assert(b.samples.filter(pred) + a.samples.filter(pred) =~= a.samples.filter(pred));
}

/// Every sample a successful parse returns has duplicate-free labels, so
/// by `lemma_labels_form_a_map` each sample's label set is a well-defined
/// mapping.
pub proof fn lemma_parsed_labels_unique(lines: Seq<Seq<char>>, m: ScrapeModel)
    requires
        spec_parse_lines(lines) == Some(m),
    ensures
        forall|i: int|
            0 <= i < m.samples.len() ==> !has_duplicate_label(
                (#[trigger] m.samples[i]).labels,
            ),
    decreases lines.len(),
{
    if lines.len() > 0 {
        let prev = spec_parse_lines(lines.drop_last()).unwrap();
        lemma_parsed_labels_unique(lines.drop_last(), prev);
        match spec_parse_line(lines.last()) {
            LineModel::Sample(sm) => {
                assert(!has_duplicate_label(sm.labels));
                assert(m.samples == prev.samples.push(sm));
                assert(forall|i: int|
                    0 <= i < prev.samples.len() ==> #[trigger] m.samples[i]
                        == prev.samples[i]);
            },
            _ => {},
        }
    }
}

/// Parsing is deterministic: two parses of one line sequence agree.
pub proof fn lemma_parse_determinism(l: Seq<Seq<char>>, a: ScrapeModel, b: ScrapeModel)
    requires
        spec_parse_lines(l) == Some(a),
        spec_parse_lines(l) == Some(b),
    ensures
        a == b,
{
}

/// The end of the line that starts at `i`: the next newline, or the end of
/// the text.
pub open spec fn line_end(s: Seq<char>, i: int) -> int
    decreases s.len() - i when 0 <= i <= s.len()
{
    if i < s.len() && s[i] != '\n' {
        line_end(s, i + 1)
    } else {
        i
    }
}

pub proof fn lemma_line_end(s: Seq<char>, i: int)
    requires
        0 <= i <= s.len(),
    ensures
        i <= line_end(s, i) <= s.len(),
        forall|j: int| i <= j < line_end(s, i) ==> #[trigger] s[j] != '\n',
        line_end(s, i) < s.len() ==> s[line_end(s, i)] == '\n',
    decreases s.len() - i,
{
    if i < s.len() && s[i] != '\n' {
        lemma_line_end(s, i + 1);
    }
}

pub proof fn lemma_line_end_is(s: Seq<char>, start: int, i: int)
    requires
        0 <= start <= i <= s.len(),
        forall|j: int| start <= j < i ==> #[trigger] s[j] != '\n',
        i < s.len() ==> s[i] == '\n',
    ensures
        line_end(s, start) == i,
    decreases i - start,
{
    if start < i {
        lemma_line_end_is(s, start + 1, i);
    }
}

/// The lines of the text from `i` on, split at newlines.
pub open spec fn split_from(s: Seq<char>, i: int) -> Seq<Seq<char>>
    decreases s.len() - i when 0 <= i <= s.len() via split_from_decreases
{
    let e = line_end(s, i);
    if e >= s.len() {
        seq![s.subrange(i, e)]
    } else {
        seq![s.subrange(i, e)] + split_from(s, e + 1)
    }
}

#[via_fn]
proof fn split_from_decreases(s: Seq<char>, i: int) {
    lemma_line_end(s, i);
}

pub open spec fn spec_split_lines(s: Seq<char>) -> Seq<Seq<char>> {
    split_from(s, 0)
}

fn scan_line(s: &str, i: usize) -> (r: usize)
    requires
        i <= s@.len(),
    ensures
        r == line_end(s@, i as int),
        i <= r <= s@.len(),
{
    let mut j = i;
    let n = s.unicode_len();
    while j < n && s.get_char(j) != '\n'
        invariant
            i <= j <= n == s@.len(),
            forall|k: int| i <= k < j ==> #[trigger] s@[k] != '\n',
        decreases n - j,
    {
        j = j + 1;
    }
    proof {
        lemma_line_end_is(s@, i as int, j as int);
    }
    j
}

/// Splits text at newlines; the newlines themselves are dropped.
pub fn split_lines(s: &str) -> (r: Vec<String>)
    ensures
        lines_view(r@) == spec_split_lines(s@),
{
    let ghost sv = s@;
    let n = s.unicode_len();
    let mut acc: Vec<String> = Vec::new();
    let mut i: usize = 0;
    proof {
        assert(lines_view(acc@) + split_from(sv, 0) =~= split_from(sv, 0));
    }
    loop
        invariant
            sv == s@,
            i <= n == sv.len(),
            spec_split_lines(sv) == lines_view(acc@) + split_from(sv, i as int),
        decreases n - i,
    {
        let e = scan_line(s, i);
        let piece = String::from_str(s.substring_char(i, e));
        proof {
            assert(lines_view(acc@.push(piece)) =~= lines_view(acc@).push(piece@));
        }
        acc.push(piece);
        if e >= n {
            proof {
                assert(lines_view(acc@) =~= lines_view(acc@.drop_last()) + seq![piece@]);
                assert(lines_view(acc@.drop_last()) + (seq![piece@]) =~= spec_split_lines(sv));
            }
            return acc;
        }
        proof {
            let tail = split_from(sv, e + 1);
            assert(lines_view(acc@.drop_last()) + (seq![piece@] + tail) =~= lines_view(acc@)
                + tail);
        }
        i = e + 1;
    }
}

/// Parses a whole exposition payload, splitting it at newlines first.
pub fn parse_text(text: &str) -> (r: Result<Scrape, ParseError>)
    ensures
        ({
            let lv = spec_split_lines(text@);
            match r {
                Ok(sc) => spec_parse_lines(lv) == Some(sc@),
                Err(e) => {
                    &&& spec_parse_lines(lv) is None
                    &&& e.line < lv.len()
                    &&& spec_parse_line(lv[e.line as int]) == LineModel::Bad(e.kind)
                    &&& forall|j: int|
                        0 <= j < e.line ==> !(spec_parse_line(#[trigger] lv[j]) matches LineModel::Bad(_))
                },
            }
        }),
{
    let lines = split_lines(text);
    let r = parse_lines(&lines);
    proof {
        let lv = spec_split_lines(text@);
        assert(lines_view(lines@) == lv);
        if let Err(e) = r {
            assert forall|j: int| 0 <= j < e.line implies !(spec_parse_line(
                #[trigger] lv[j],
            ) matches LineModel::Bad(_)) by {
                assert(lv[j] == lines@[j]@);
            }
        }
    }
    r
}

/// The exact whole number a sample value denotes: `None` when the value has
/// a fractional part or does not fit in 64 signed bits.
pub open spec fn value_as_integer(v: SampleValue) -> Option<i64> {
    let mag = v.mantissa as int;
    if mag % pow10(v.scale as nat) != 0 {
        None
    } else {
        let q = mag / pow10(v.scale as nat);
        let sv: int = if v.neg {
            -q
        } else {
            q
        };
        if sv < -0x8000000000000000 || sv > 0x7fffffffffffffff {
            None
        } else {
            Some(sv as i64)
        }
    }
}

/// Converts a sample value to the whole number it denotes, when it is one.
pub fn value_to_integer(v: &SampleValue) -> (r: Option<i64>)
    ensures
        r == value_as_integer(*v),
{
    let mag = v.mantissa as u128;
    if v.scale > 20 {
        proof {
            reveal_with_fuel(pow10, 22);
            lemma_pow10_mono(21, v.scale as nat);
            vstd::arithmetic::div_mod::lemma_small_mod(
                v.mantissa as nat,
                pow10(v.scale as nat) as nat,
            );
            if v.mantissa == 0 {
                assert(0int % pow10(v.scale as nat) == 0);
                vstd::arithmetic::div_mod::lemma_small_div_converse(
                    0,
                    pow10(v.scale as nat),
                );
            }
        }
        if v.mantissa == 0 {
            return Some(0);
        }
        return None;
    }
    let p10 = pow10_u128(v.scale as usize);
    proof {
        lemma_pow10_mono(0, v.scale as nat);
    }
    if mag % p10 != 0 {
        return None;
    }
    let q = mag / p10;
    if v.neg {
        if q > 0x8000000000000000u128 {
            return None;
        }
        if q == 0x8000000000000000u128 {
            return Some(i64::MIN);
        }
        Some(-(q as i64))
    } else {
        if q > 0x7fffffffffffffffu128 {
            return None;
        }
        Some(q as i64)
    }
}

/// Whether the sample carries the label `key="value"`.
pub open spec fn spec_has_label(sm: SampleModel, key: Seq<char>, value: Seq<char>) -> bool {
    exists|i: int| 0 <= i < sm.labels.len() && #[trigger] sm.labels[i] == (key, value)
}

/// Whether the sample is of the metric and carries the label.
pub open spec fn spec_sample_matches(
    sm: SampleModel,
    metric: Seq<char>,
    key: Seq<char>,
    value: Seq<char>,
) -> bool {
    sm.metric == metric && spec_has_label(sm, key, value)
}

/// Whether two pieces of text hold the same characters.
pub fn str_eq(a: &str, b: &str) -> (r: bool)
    ensures
        r == (a@ == b@),
{
    let na = a.unicode_len();
    let nb = b.unicode_len();
    if na != nb {
        return false;
    }
    let mut i: usize = 0;
    while i < na
        invariant
            i <= na == a@.len(),
            na == nb == b@.len(),
            forall|j: int| 0 <= j < i ==> #[trigger] a@[j] == b@[j],
        decreases na - i,
    {
        if a.get_char(i) != b.get_char(i) {
            return false;
        }
        i = i + 1;
    }
    proof {
        assert(a@ =~= b@);
    }
    true
}

fn sample_has_label(s: &Sample, key: &str, value: &str) -> (r: bool)
    ensures
        r == spec_has_label(s@, key@, value@),
{
    let n = s.labels.len();
    let mut i: usize = 0;
    while i < n
        invariant
            i <= n == s.labels@.len(),
            forall|j: int| 0 <= j < i ==> #[trigger] s@.labels[j] != (key@, value@),
        decreases n - i,
    {
        if str_eq(s.labels[i].name.as_str(), key) && str_eq(s.labels[i].value.as_str(), value) {
            proof {
                assert(s@.labels[i as int] == (key@, value@));
            }
            return true;
        }
        proof {
            assert(s@.labels[i as int] == (s.labels@[i as int].name@, s.labels@[i as int].value@));
        }
        i = i + 1;
    }
    false
}

/// The first sample of the metric that carries the label `key="value"`,
/// by its index in the scrape.
pub fn find_sample(sc: &Scrape, metric: &str, key: &str, value: &str) -> (r: Option<usize>)
    ensures
        match r {
            Some(i) => {
                &&& i < sc@.samples.len()
                &&& spec_sample_matches(sc@.samples[i as int], metric@, key@, value@)
                &&& forall|j: int|
                    0 <= j < i ==> !spec_sample_matches(
                        #[trigger] sc@.samples[j],
                        metric@,
                        key@,
                        value@,
                    )
            },
            None => forall|j: int|
                0 <= j < sc@.samples.len() ==> !spec_sample_matches(
                    #[trigger] sc@.samples[j],
                    metric@,
                    key@,
                    value@,
                ),
        },
{
    let n = sc.samples.len();
    let mut i: usize = 0;
    while i < n
        invariant
            i <= n == sc.samples@.len(),
            forall|j: int|
                0 <= j < i ==> !spec_sample_matches(
                    #[trigger] sc@.samples[j],
                    metric@,
                    key@,
                    value@,
                ),
        decreases n - i,
    {
        proof {
            assert(sc@.samples[i as int] == sc.samples@[i as int]@);
        }
        if str_eq(sc.samples[i].metric.as_str(), metric) && sample_has_label(
            &sc.samples[i],
            key,
            value,
        ) {
            return Some(i);
        }
        i = i + 1;
    }
    None
}

} // verus!
