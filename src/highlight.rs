use vstd::prelude::*;

verus! {

/// Classification of one rendered character.
#[derive(Debug, PartialEq, Eq, Clone, Copy, Structural)]
pub enum Highlight {
    Normal,
    Number,
    Match,
    String,
    Comment,
    MultilineComment,
    Keyword1,
    Keyword2,
}

/// Terminal color code of each classification.
pub open spec fn color_code(h: Highlight) -> usize {
    match h {
        Highlight::Normal => 37,
        Highlight::Number => 31,
        Highlight::Match => 34,
        Highlight::String => 35,
        Highlight::Comment => 36,
        Highlight::MultilineComment => 36,
        Highlight::Keyword1 => 33,
        Highlight::Keyword2 => 32,
    }
}

impl Highlight {
    /// The ANSI foreground color code used to draw this classification.
    pub fn color(&self) -> (r: usize)
        ensures
            r == color_code(*self),
    {
        match self {
            Highlight::Normal => 37,
            Highlight::Number => 31,
            Highlight::Match => 34,
            Highlight::String => 35,
            Highlight::Comment => 36,
            Highlight::MultilineComment => 36,
            Highlight::Keyword1 => 33,
            Highlight::Keyword2 => 32,
        }
    }
}

/// Characters that bound identifiers, keywords and numbers.
pub open spec fn is_sep(c: char) -> bool {
    c == ' ' || c == '\t' || c == '\r' || c == '\n' || c == '\0' || c == ',' || c == '.'
        || c == '(' || c == ')' || c == '+' || c == '-' || c == '/' || c == '*' || c == '='
        || c == '%' || c == '<' || c == '>' || c == '[' || c == ']'
}

/// Whether `c` bounds identifiers, keywords and numbers.
pub fn is_separator(c: char) -> (r: bool)
    ensures
        r == is_sep(c),
{
    c == ' ' || c == '\t' || c == '\r' || c == '\n' || c == '\0' || c == ',' || c == '.'
        || c == '(' || c == ')' || c == '+' || c == '-' || c == '/' || c == '*' || c == '='
        || c == '%' || c == '<' || c == '>' || c == '[' || c == ']'
}

pub open spec fn is_digit(c: char) -> bool {
    '0' <= c && c <= '9'
}

/// A kind of classification that a file type may switch on or off.
#[derive(Debug, PartialEq, Eq, Clone, Copy, Structural)]
pub enum HighlightType {
    Number,
    String,
    Comment,
    MultilineComment,
    Keyword1,
    Keyword2,
}

/// The highlighting rules of one file type, as plain character sequences,
/// with a switch for numbers, strings, line comments and block comments.
/// An empty marker or keyword list never matches.
pub struct Syntax {
    pub numbers: bool,
    pub strings: bool,
    pub comments: bool,
    pub block_comments: bool,
    pub keywords1: Vec<Vec<char>>,
    pub keywords2: Vec<Vec<char>>,
    pub line_comment: Vec<char>,
    pub block_start: Vec<char>,
    pub block_end: Vec<char>,
}

pub struct SyntaxView {
    pub numbers: bool,
    pub strings: bool,
    pub comments: bool,
    pub block_comments: bool,
    pub keywords1: Seq<Seq<char>>,
    pub keywords2: Seq<Seq<char>>,
    pub line_comment: Seq<char>,
    pub block_start: Seq<char>,
    pub block_end: Seq<char>,
}

impl View for Syntax {
    type V = SyntaxView;

    open spec fn view(&self) -> SyntaxView {
        SyntaxView {
            numbers: self.numbers,
            strings: self.strings,
            comments: self.comments,
            block_comments: self.block_comments,
            keywords1: char_views(self.keywords1@),
            keywords2: char_views(self.keywords2@),
            line_comment: self.line_comment@,
            block_start: self.block_start@,
            block_end: self.block_end@,
        }
    }
}

/// The character sequences of a list of character vectors.
pub open spec fn char_views(v: Seq<Vec<char>>) -> Seq<Seq<char>> {
    v.map_values(|k: Vec<char>| k@)
}

/// `m` is non-empty and stands in `r` from position `i` on.
pub open spec fn marker_at(r: Seq<char>, i: nat, m: Seq<char>) -> bool {
    &&& m.len() > 0
    &&& i + m.len() <= r.len()
    &&& r.subrange(i as int, (i + m.len()) as int) == m
}

/// Keyword `k` stands at `i`, followed by a separator or the end of the line.
pub open spec fn keyword_fits(r: Seq<char>, i: nat, k: Seq<char>) -> bool {
    &&& marker_at(r, i, k)
    &&& (i + k.len() == r.len() || is_sep(r[(i + k.len()) as int]))
}

/// Index of the first keyword of `kws` from index `from` on that fits at `i`.
pub open spec fn keyword_at(r: Seq<char>, i: nat, kws: Seq<Seq<char>>, from: nat) -> Option<nat>
    decreases kws.len() - from,
{
    if from >= kws.len() {
        None
    } else if keyword_fits(r, i, kws[from as int]) {
        Some(from)
    } else {
        keyword_at(r, i, kws, from + 1)
    }
}

/// The keyword that `keyword_at` picks fits where it was looked for.
pub proof fn lemma_keyword_at_fits(r: Seq<char>, i: nat, kws: Seq<Seq<char>>, from: nat)
    ensures
        keyword_at(r, i, kws, from) matches Some(k) ==> from <= k < kws.len() && keyword_fits(
            r,
            i,
            kws[k as int],
        ),
    decreases kws.len() - from,
{
    if from < kws.len() && !keyword_fits(r, i, kws[from as int]) {
        lemma_keyword_at_fits(r, i, kws, from + 1);
    }
}

/// The state of the scan between two positions of a line.
pub struct ScanState {
    pub tags: Seq<Highlight>,
    pub prev_sep: bool,
    pub prev_tag: Highlight,
    pub prev_char: char,
    pub in_string: bool,
    pub quote: char,
    pub in_comment: bool,
}

pub enum Step {
    /// A line comment starts here: the line is classified to its end.
    Finish(Seq<Highlight>),
    /// The scan goes on at the given position.
    Next(nat, ScanState),
}

pub open spec fn fill(h: Highlight, n: nat) -> Seq<Highlight> {
    Seq::new(n, |_k: int| h)
}

/// The state at the start of a line, given whether it opens inside a block comment.
pub open spec fn initial_state(open_comment: bool) -> ScanState {
    ScanState {
        tags: Seq::empty(),
        prev_sep: true,
        prev_tag: Highlight::Normal,
        prev_char: '\0',
        in_string: false,
        quote: '\0',
        in_comment: open_comment,
    }
}

/// One step of the scan at position `i`: numbers, strings, line comments,
/// block comments and keywords, in that order of precedence.
pub open spec fn step(r: Seq<char>, syn: SyntaxView, i: nat, st: ScanState) -> Step {
    let c = r[i as int];
    let num = syn.numbers && ((is_digit(c) && (st.prev_sep || st.prev_tag == Highlight::Number)) || (c
        == '.' && st.prev_tag == Highlight::Number));
    let tag0 = if num { Highlight::Number } else { Highlight::Normal };
    let sep0 = if num { false } else { st.prev_sep };
    let in_string = if !syn.strings {
        st.in_string
    } else if st.in_string {
        !(c == st.quote && st.prev_char != '\\')
    } else {
        (c == '\'' || c == '"') && st.prev_char != '\\'
    };
    let quote = if syn.strings && !st.in_string && in_string { c } else { st.quote };
    let tag1 = if syn.strings && (st.in_string || in_string) { Highlight::String } else { tag0 };
    let sep1 = if syn.strings && st.in_string { true } else { sep0 };
    if syn.comments && !in_string && !st.in_comment && marker_at(r, i, syn.line_comment) {
        Step::Finish(st.tags + fill(Highlight::Comment, (r.len() - i) as nat))
    } else if syn.block_comments && !st.in_comment && marker_at(r, i, syn.block_start) {
        let n = syn.block_start.len();
        Step::Next(
            i + n,
            ScanState {
                tags: st.tags + fill(Highlight::MultilineComment, n),
                prev_sep: sep1,
                in_string,
                quote,
                in_comment: true,
                ..st
            },
        )
    } else if syn.block_comments && st.in_comment && marker_at(r, i, syn.block_end) {
        let n = syn.block_end.len();
        Step::Next(
            i + n,
            ScanState {
                tags: st.tags + fill(Highlight::MultilineComment, n),
                prev_sep: true,
                in_string,
                quote,
                in_comment: false,
                ..st
            },
        )
    } else if sep1 && !st.in_comment && !in_string && keyword_at(r, i, syn.keywords1, 0) is Some {
        let n = syn.keywords1[keyword_at(r, i, syn.keywords1, 0)->0 as int].len();
        Step::Next(
            i + n,
            ScanState {
                tags: st.tags + fill(Highlight::Keyword1, n),
                prev_sep: sep1,
                prev_tag: Highlight::Keyword1,
                in_string,
                quote,
                ..st
            },
        )
    } else if sep1 && !st.in_comment && !in_string && keyword_at(r, i, syn.keywords2, 0) is Some {
        let n = syn.keywords2[keyword_at(r, i, syn.keywords2, 0)->0 as int].len();
        Step::Next(
            i + n,
            ScanState {
                tags: st.tags + fill(Highlight::Keyword2, n),
                prev_sep: sep1,
                prev_tag: Highlight::Keyword2,
                in_string,
                quote,
                ..st
            },
        )
    } else {
        let tag = if syn.block_comments && st.in_comment { Highlight::MultilineComment } else { tag1 };
        Step::Next(
            i + 1,
            ScanState {
                tags: st.tags.push(tag),
                prev_sep: is_sep(c),
                prev_tag: tag,
                prev_char: c,
                in_string,
                quote,
                in_comment: st.in_comment,
            },
        )
    }
}

/// The tags of a line and whether it ends inside a block comment, scanning
/// from position `i` in state `st`.
pub open spec fn scan(r: Seq<char>, syn: SyntaxView, i: nat, st: ScanState) -> (Seq<Highlight>, bool)
    decreases r.len() - i,
{
    if i >= r.len() {
        (st.tags, st.in_comment)
    } else {
        match step(r, syn, i, st) {
            Step::Finish(tags) => (tags, false),
            Step::Next(j, next) => if i < j <= r.len() {
                scan(r, syn, j, next)
            } else {
                (next.tags, next.in_comment)
            },
        }
    }
}

/// Tags of the rendered line `r` under `syn` and its outbound block-comment flag.
pub open spec fn classify(r: Seq<char>, syn: SyntaxView, open_comment: bool) -> (Seq<Highlight>, bool) {
    scan(r, syn, 0, initial_state(open_comment))
}


/// No keyword of the first list starts with a separator or a quote, and the
/// block-comment close marker ends with a separator.
pub open spec fn keywords_bounded(syn: SyntaxView) -> bool {
    &&& forall|k: int|
        0 <= k < syn.keywords1.len() && (#[trigger] syn.keywords1[k]).len() > 0 ==> !is_sep(
            syn.keywords1[k][0],
        ) && syn.keywords1[k][0] != '\'' && syn.keywords1[k][0] != '"'
    &&& syn.block_end.len() > 0 ==> is_sep(syn.block_end.last())
}

/// Position `p` of `r` lies inside an occurrence of a keyword of `kws` that
/// has a separator or the edge of the line on each side.
pub open spec fn in_bounded_keyword(r: Seq<char>, kws: Seq<Seq<char>>, p: int) -> bool {
    exists|s: int, k: int| #[trigger] bounded_keyword_at(r, kws, s, k) && s <= p < s + kws[k].len()
}

/// Keyword `k` of `kws` stands in `r` at `s` with a separator, or the edge of
/// the line, on each side.
pub open spec fn bounded_keyword_at(r: Seq<char>, kws: Seq<Seq<char>>, s: int, k: int) -> bool {
    &&& 0 <= k < kws.len()
    &&& 0 <= s && s + kws[k].len() <= r.len()
    &&& r.subrange(s, s + kws[k].len()) == kws[k]
    &&& (s == 0 || is_sep(r[s - 1]))
    &&& (s + kws[k].len() == r.len() || is_sep(r[s + kws[k].len()]))
}

/// What holds of a scan state at position `i`: every `Keyword1` tag so far
/// lies in a bounded keyword, and a pending separator flag outside comments
/// means a separator stands just before or at `i`.
pub open spec fn keyword_scan_inv(r: Seq<char>, syn: SyntaxView, i: nat, st: ScanState) -> bool {
    &&& forall|p: int|
        0 <= p < st.tags.len() && #[trigger] st.tags[p] == Highlight::Keyword1 ==> in_bounded_keyword(
            r,
            syn.keywords1,
            p,
        )
    &&& (st.prev_sep && !st.in_comment && 0 < i < r.len()) ==> (is_sep(r[i - 1]) || is_sep(r[i as int]))
}

proof fn lemma_keyword_scan(r: Seq<char>, syn: SyntaxView, i: nat, st: ScanState)
    requires
        keywords_bounded(syn),
        keyword_scan_inv(r, syn, i, st),
        st.in_string ==> (st.quote == '\'' || st.quote == '"'),
        st.tags.len() == i,
    ensures
        forall|p: int|
            0 <= p < scan(r, syn, i, st).0.len() && #[trigger] scan(r, syn, i, st).0[p] == Highlight::Keyword1
                ==> in_bounded_keyword(r, syn.keywords1, p),
    decreases r.len() - i,
{
    if i < r.len() {
        lemma_keyword_at_fits(r, i, syn.keywords1, 0);
        lemma_keyword_at_fits(r, i, syn.keywords2, 0);
        let c = r[i as int];
        let num = syn.numbers && ((is_digit(c) && (st.prev_sep || st.prev_tag == Highlight::Number)) || (c
            == '.' && st.prev_tag == Highlight::Number));
        let sep0 = if num { false } else { st.prev_sep };
        let in_string = if !syn.strings {
            st.in_string
        } else if st.in_string {
            !(c == st.quote && st.prev_char != '\\')
        } else {
            (c == '\'' || c == '"') && st.prev_char != '\\'
        };
        let sep1 = if syn.strings && st.in_string { true } else { sep0 };
        let kw1 = keyword_at(r, i, syn.keywords1, 0);
        match step(r, syn, i, st) {
            Step::Finish(tags) => {
                assert forall|p: int| 0 <= p < tags.len() && #[trigger] tags[p] == Highlight::Keyword1
                    implies in_bounded_keyword(r, syn.keywords1, p) by {
                    assert(p < st.tags.len());
                    assert(tags[p] == st.tags[p]);
                }
            },
            Step::Next(j, next) => {
                if syn.comments && !in_string && !st.in_comment && marker_at(r, i, syn.line_comment) {
                } else if syn.block_comments && !st.in_comment && marker_at(r, i, syn.block_start) {
                    assert forall|p: int| 0 <= p < next.tags.len() && #[trigger] next.tags[p] == Highlight::Keyword1
                        implies in_bounded_keyword(r, syn.keywords1, p) by {
                        assert(p < st.tags.len());
                        assert(next.tags[p] == st.tags[p]);
                    }
                } else if syn.block_comments && st.in_comment && marker_at(r, i, syn.block_end) {
                    assert forall|p: int| 0 <= p < next.tags.len() && #[trigger] next.tags[p] == Highlight::Keyword1
                        implies in_bounded_keyword(r, syn.keywords1, p) by {
                        assert(p < st.tags.len());
                        assert(next.tags[p] == st.tags[p]);
                    }
                    assert(r[j - 1] == syn.block_end.last());
                } else if sep1 && !st.in_comment && !in_string && kw1 is Some {
                    let k = kw1->0 as int;
                    let kw = syn.keywords1[k];
                    assert(r.subrange(i as int, (i + kw.len()) as int) == kw);
                    assert(r[i as int] == kw[0]);
                    assert(i == 0 || is_sep(r[i - 1]));
                    assert(bounded_keyword_at(r, syn.keywords1, i as int, k));
                    assert forall|p: int| 0 <= p < next.tags.len() && #[trigger] next.tags[p] == Highlight::Keyword1
                        implies in_bounded_keyword(r, syn.keywords1, p) by {
                        if p < st.tags.len() {
                            assert(next.tags[p] == st.tags[p]);
                        } else {
                            assert(i <= p < i + kw.len());
                        }
                    }
                } else if sep1 && !st.in_comment && !in_string && keyword_at(r, i, syn.keywords2, 0) is Some {
                    assert forall|p: int| 0 <= p < next.tags.len() && #[trigger] next.tags[p] == Highlight::Keyword1
                        implies in_bounded_keyword(r, syn.keywords1, p) by {
                        assert(p < st.tags.len());
                        assert(next.tags[p] == st.tags[p]);
                    }
                } else {
                    assert forall|p: int| 0 <= p < next.tags.len() && #[trigger] next.tags[p] == Highlight::Keyword1
                        implies in_bounded_keyword(r, syn.keywords1, p) by {
                        assert(p < st.tags.len());
                        assert(next.tags[p] == st.tags[p]);
                    }
                }
                if i < j <= r.len() {
                    lemma_keyword_scan(r, syn, j, next);
                }
            },
        }
    }
}

/// A character is tagged `Keyword1` only inside an occurrence of a keyword of
/// the first list that has a separator, or the edge of the line, on each side:
/// a keyword embedded in a longer word is never tagged.
pub proof fn law_keyword_needs_separators(r: Seq<char>, syn: SyntaxView, open_comment: bool, p: int)
    requires
        keywords_bounded(syn),
        0 <= p < classify(r, syn, open_comment).0.len(),
        classify(r, syn, open_comment).0[p] == Highlight::Keyword1,
    ensures
        in_bounded_keyword(r, syn.keywords1, p),
{
    lemma_keyword_scan(r, syn, 0, initial_state(open_comment));
}

/// `m` stands in `r` from position `i` on (an empty `m` never does).
pub fn matches_at(r: &Vec<char>, i: usize, m: &Vec<char>) -> (b: bool)
    requires
        i <= r.len(),
    ensures
        b == marker_at(r@, i as nat, m@),
{
    if m.len() == 0 || m.len() > r.len() - i {
        return false;
    }
    let mut k: usize = 0;
    while k < m.len()
        invariant
            k <= m.len(),
            i + m.len() <= r.len(),
            forall|j: int| 0 <= j < k ==> r@[i + j] == m@[j],
        decreases m.len() - k,
    {
        if r[i + k] != m[k] {
            assert(r@.subrange(i as int, i + m.len())[k as int] != m@[k as int]);
            return false;
        }
        k += 1;
    }
    assert(r@.subrange(i as int, i + m.len()) == m@);
    true
}

/// Index of the first keyword of `kws` that fits at `i`.
pub fn find_keyword(r: &Vec<char>, i: usize, kws: &Vec<Vec<char>>) -> (found: Option<usize>)
    requires
        i < r.len(),
    ensures
        match found {
            None => keyword_at(r@, i as nat, char_views(kws@), 0) is None,
            Some(k) => k < kws.len() && keyword_at(r@, i as nat, char_views(kws@), 0)
                == Some(k as nat),
        },
{
    let ghost kv = char_views(kws@);
    let mut k: usize = kws.len();
    let mut found: Option<usize> = None;
    // walk backwards so that the first fitting keyword is the last one recorded
    while k > 0
        invariant
            k <= kws.len(),
            i < r.len(),
            kv == char_views(kws@),
            match found {
                None => keyword_at(r@, i as nat, kv, k as nat) is None,
                Some(j) => k <= j < kws.len() && keyword_at(r@, i as nat, kv, k as nat) == Some(j as nat),
            },
        decreases k,
    {
        k -= 1;
        let kw = &kws[k];
        let fits = if matches_at(r, i, kw) {
            i + kw.len() == r.len() || is_separator(r[i + kw.len()])
        } else {
            false
        };
        assert(kv[k as int] == kw@);
        if fits {
            found = Some(k);
        }
    }
    found
}

/// Classifies every character of the rendered line `r` under `syn`, starting
/// inside a block comment when `open_comment` holds; returns the tags and
/// whether the line ends inside a block comment.
pub fn classify_line(r: &Vec<char>, syn: &Syntax, open_comment: bool) -> (out: (Vec<Highlight>, bool))
    ensures
        (out.0@, out.1) == classify(r@, syn@, open_comment),
        out.0.len() == r.len(),
{
    let mut tags: Vec<Highlight> = Vec::new();
    let mut prev_sep = true;
    let mut prev_tag = Highlight::Normal;
    let mut prev_char = '\0';
    let mut in_string = false;
    let mut quote = '\0';
    let mut in_comment = open_comment;
    let mut i: usize = 0;
    while i < r.len()
        invariant
            i <= r.len(),
            tags.len() == i,
            scan(r@, syn@, i as nat, ScanState { tags: tags@, prev_sep, prev_tag, prev_char, in_string, quote, in_comment })
                == classify(r@, syn@, open_comment),
        decreases r.len() - i,
    {
        let ghost st = ScanState { tags: tags@, prev_sep, prev_tag, prev_char, in_string, quote, in_comment };
        let ghost stp = step(r@, syn@, i as nat, st);
        let c = r[i];
        let is_num = syn.numbers && ((('0' <= c && c <= '9') && (prev_sep || prev_tag == Highlight::Number))
            || (c == '.' && prev_tag == Highlight::Number));
        let tag0 = if is_num { Highlight::Number } else { Highlight::Normal };
        let sep0 = if is_num { false } else { prev_sep };
        let now_in_string = if !syn.strings {
            in_string
        } else if in_string {
            !(c == quote && prev_char != '\\')
        } else {
            (c == '\'' || c == '"') && prev_char != '\\'
        };
        let new_quote = if syn.strings && !in_string && now_in_string { c } else { quote };
        let tag1 = if syn.strings && (in_string || now_in_string) { Highlight::String } else { tag0 };
        let sep1 = if syn.strings && in_string { true } else { sep0 };
        if syn.comments && !now_in_string && !in_comment && matches_at(r, i, &syn.line_comment) {
            let ghost before = tags@;
            let mut j: usize = i;
            while j < r.len()
                invariant
                    i <= j <= r.len(),
                    tags@ == before + fill(Highlight::Comment, (j - i) as nat),
                decreases r.len() - j,
            {
                tags.push(Highlight::Comment);
                j += 1;
                assert(tags@ == before + fill(Highlight::Comment, (j - i) as nat));
            }
            assert(stp == Step::Finish(before + fill(Highlight::Comment, (r.len() - i) as nat)));
            return (tags, false);
        }
        let ghost before = tags@;
        let mut n: usize = 0;
        let mut tag = Highlight::Normal;
        if syn.block_comments && !in_comment && matches_at(r, i, &syn.block_start) {
            n = syn.block_start.len();
            tag = Highlight::MultilineComment;
            prev_sep = sep1;
            in_comment = true;
        } else if syn.block_comments && in_comment && matches_at(r, i, &syn.block_end) {
            n = syn.block_end.len();
            tag = Highlight::MultilineComment;
            prev_sep = true;
            in_comment = false;
        } else {
            let mut kw: Option<usize> = None;
            if sep1 && !in_comment && !now_in_string {
                kw = find_keyword(r, i, &syn.keywords1);
                proof {
                    lemma_keyword_at_fits(r@, i as nat, syn@.keywords1, 0);
                    lemma_keyword_at_fits(r@, i as nat, syn@.keywords2, 0);
                }
                if let Some(k) = kw {
                    n = syn.keywords1[k].len();
                    assert(syn@.keywords1[k as int] == syn.keywords1@[k as int]@);
                    tag = Highlight::Keyword1;
                } else {
                    kw = find_keyword(r, i, &syn.keywords2);
                    if let Some(k) = kw {
                        n = syn.keywords2[k].len();
                        assert(syn@.keywords2[k as int] == syn.keywords2@[k as int]@);
                        tag = Highlight::Keyword2;
                    }
                }
            }
            if kw.is_some() {
                assert(syn@.keywords1.len() == syn.keywords1.len());
                prev_sep = sep1;
                prev_tag = tag;
            } else {
                n = 1;
                tag = if syn.block_comments && in_comment { Highlight::MultilineComment } else { tag1 };
                prev_sep = is_separator(c);
                prev_tag = tag;
                prev_char = c;
            }
        }
        in_string = now_in_string;
        quote = new_quote;
        let mut j: usize = 0;
        while j < n
            invariant
                j <= n,
                i + n <= r.len(),
                tags@ == before + fill(tag, j as nat),
            decreases n - j,
        {
            tags.push(tag);
            j += 1;
            assert(tags@ == before + fill(tag, j as nat));
        }
        assert(before.push(tag) =~= before + fill(tag, 1));
        assert(stp == Step::Next((i + n) as nat, ScanState { tags: tags@, prev_sep, prev_tag, prev_char, in_string, quote, in_comment }));
        i = i + n;
    }
    (tags, in_comment)
}

} // verus!
