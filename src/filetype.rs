use vstd::prelude::*;

use crate::highlight::{
    HighlightType, char_views, classify, in_bounded_keyword, is_sep, keywords_bounded, law_keyword_needs_separators, classify_line, fill, Highlight, Syntax, SyntaxView};
use crate::text::chars_of;

verus! {

/// A language whose files the editor highlights.
#[derive(Debug, PartialEq, Eq, Clone, Copy, Structural)]
pub enum FileType {
    C,
}

pub open spec fn extensions_of(ft: FileType) -> Seq<Seq<char>> {
    match ft {
        FileType::C => seq![".c"@, ".h"@, ".cpp"@],
    }
}

pub open spec fn keywords1_of(ft: FileType) -> Seq<Seq<char>> {
    match ft {
        FileType::C => seq![
            "switch"@, "if"@, "while"@, "for"@, "break"@, "continue"@, "return"@, "else"@,
            "struct"@, "union"@, "typedef"@, "static"@, "enum"@, "class"@, "case"@,
        ],
    }
}

pub open spec fn keywords2_of(ft: FileType) -> Seq<Seq<char>> {
    match ft {
        FileType::C => seq![
            "int"@, "long"@, "double"@, "float"@, "char"@, "unsigned"@, "signed"@, "void"@,
        ],
    }
}

pub open spec fn line_comment_of(ft: FileType) -> Option<Seq<char>> {
    match ft {
        FileType::C => Some("//"@),
    }
}

pub open spec fn block_start_of(ft: FileType) -> Option<Seq<char>> {
    match ft {
        FileType::C => Some("/*"@),
    }
}

pub open spec fn block_end_of(ft: FileType) -> Option<Seq<char>> {
    match ft {
        FileType::C => Some("*/"@),
    }
}

pub open spec fn name_of(ft: FileType) -> Seq<char> {
    match ft {
        FileType::C => "C"@,
    }
}

pub open spec fn marker_or_empty(m: Option<Seq<char>>) -> Seq<char> {
    match m {
        Some(s) => s,
        None => Seq::empty(),
    }
}

/// The character sequences of a list of string literals.
pub open spec fn str_views(v: Seq<&'static str>) -> Seq<Seq<char>> {
    v.map_values(|s: &'static str| s@)
}

pub open spec fn view_marker(m: Option<&'static str>) -> Option<Seq<char>> {
    match m {
        Some(s) => Some(s@),
        None => None,
    }
}

/// Whether a file type classifies characters of the given kind.
pub open spec fn highlights(ft: FileType, kind: HighlightType) -> bool {
    match ft {
        FileType::C => true,
    }
}

/// The highlighting rules of a file type: a switched-off keyword kind has no keywords.
pub open spec fn syntax_of(ft: FileType) -> SyntaxView {
    SyntaxView {
        numbers: highlights(ft, HighlightType::Number),
        strings: highlights(ft, HighlightType::String),
        comments: highlights(ft, HighlightType::Comment),
        block_comments: highlights(ft, HighlightType::MultilineComment),
        keywords1: if highlights(ft, HighlightType::Keyword1) { keywords1_of(ft) } else { Seq::empty() },
        keywords2: if highlights(ft, HighlightType::Keyword2) { keywords2_of(ft) } else { Seq::empty() },
        line_comment: marker_or_empty(line_comment_of(ft)),
        block_start: marker_or_empty(block_start_of(ft)),
        block_end: marker_or_empty(block_end_of(ft)),
    }
}

/// `path` ends with `ext`.
pub open spec fn ends_with(path: Seq<char>, ext: Seq<char>) -> bool {
    ext.len() <= path.len() && path.subrange(path.len() - ext.len(), path.len() as int) == ext
}

/// The file type whose extension list holds a suffix of `path`.
pub open spec fn file_type_for(path: Seq<char>) -> Option<FileType> {
    if exists|k: int| 0 <= k < extensions_of(FileType::C).len() && ends_with(path, #[trigger] extensions_of(FileType::C)[k]) {
        Some(FileType::C)
    } else {
        None
    }
}

/// Tags and outbound block-comment flag of a rendered line: without a file
/// type every character is `Normal` and the inbound flag passes through.
pub open spec fn highlight_line(render: Seq<char>, ft: Option<FileType>, open_comment: bool) -> (Seq<Highlight>, bool) {
    match ft {
        None => (fill(Highlight::Normal, render.len()), open_comment),
        Some(f) => classify(render, syntax_of(f), open_comment),
    }
}

/// The C keywords start with letters and the C block comment closes with `/`.
pub proof fn lemma_c_keywords_bounded()
    ensures
        keywords_bounded(syntax_of(FileType::C)),
{
    reveal_strlit("switch");
    reveal_strlit("if");
    reveal_strlit("while");
    reveal_strlit("for");
    reveal_strlit("break");
    reveal_strlit("continue");
    reveal_strlit("return");
    reveal_strlit("else");
    reveal_strlit("struct");
    reveal_strlit("union");
    reveal_strlit("typedef");
    reveal_strlit("static");
    reveal_strlit("enum");
    reveal_strlit("class");
    reveal_strlit("case");
    reveal_strlit("*/");
    let kws = syntax_of(FileType::C).keywords1;
    assert forall|k: int| 0 <= k < kws.len() && (#[trigger] kws[k]).len() > 0 implies !is_sep(
        kws[k][0],
    ) && kws[k][0] != '\'' && kws[k][0] != '"' by {
        if k == 0 { assert(kws[k][0] == 's'); }
        else if k == 1 { assert(kws[k][0] == 'i'); }
        else if k == 2 { assert(kws[k][0] == 'w'); }
        else if k == 3 { assert(kws[k][0] == 'f'); }
        else if k == 4 { assert(kws[k][0] == 'b'); }
        else if k == 5 { assert(kws[k][0] == 'c'); }
        else if k == 6 { assert(kws[k][0] == 'r'); }
        else if k == 7 { assert(kws[k][0] == 'e'); }
        else if k == 8 { assert(kws[k][0] == 's'); }
        else if k == 9 { assert(kws[k][0] == 'u'); }
        else if k == 10 { assert(kws[k][0] == 't'); }
        else if k == 11 { assert(kws[k][0] == 's'); }
        else if k == 12 { assert(kws[k][0] == 'e'); }
        else if k == 13 { assert(kws[k][0] == 'c'); }
        else { assert(kws[k][0] == 'c'); }
    }
}

/// In a C file, a character is tagged `Keyword1` only inside a keyword of the
/// first list with a separator, or the edge of the line, on each side (so
/// `ifx` is never tagged).
pub proof fn law_c_keyword_needs_separators(render: Seq<char>, open_comment: bool, p: int)
    requires
        0 <= p < highlight_line(render, Some(FileType::C), open_comment).0.len(),
        highlight_line(render, Some(FileType::C), open_comment).0[p] == Highlight::Keyword1,
    ensures
        in_bounded_keyword(render, keywords1_of(FileType::C), p),
{
    lemma_c_keywords_bounded();
    law_keyword_needs_separators(render, syntax_of(FileType::C), open_comment, p);
}

fn views_of(v: &Vec<&'static str>) -> (r: Vec<Vec<char>>)
    ensures
        char_views(r@) == str_views(v@),
{
    let mut r: Vec<Vec<char>> = Vec::new();
    let mut i: usize = 0;
    while i < v.len()
        invariant
            i <= v.len(),
            r.len() == i,
            forall|j: int| 0 <= j < i ==> #[trigger] r@[j]@ == v@[j]@,
        decreases v.len() - i,
    {
        r.push(chars_of(v[i]));
        i += 1;
    }
    assert(char_views(r@) =~= str_views(v@));
    r
}

fn marker_chars(m: Option<&'static str>) -> (r: Vec<char>)
    ensures
        r@ == marker_or_empty(view_marker(m)),
{
    match m {
        Some(s) => chars_of(s),
        None => Vec::new(),
    }
}

/// `path` ends with `ext`.
fn has_suffix(path: &Vec<char>, ext: &Vec<char>) -> (b: bool)
    ensures
        b == ends_with(path@, ext@),
{
    if ext.len() > path.len() {
        return false;
    }
    let off = path.len() - ext.len();
    let mut k: usize = 0;
    while k < ext.len()
        invariant
            k <= ext.len(),
            off + ext.len() == path.len(),
            forall|j: int| 0 <= j < k ==> path@[off + j] == ext@[j],
        decreases ext.len() - k,
    {
        if path[off + k] != ext[k] {
            assert(path@.subrange(off as int, path.len() as int)[k as int] != ext@[k as int]);
            return false;
        }
        k += 1;
    }
    assert(path@.subrange(off as int, path.len() as int) == ext@);
    true
}

impl FileType {
    /// The file type registered for the extension that `filepath` ends with.
    pub fn select_file_type(filepath: &str) -> (r: Option<FileType>)
        ensures
            r == file_type_for(filepath@),
    {
        let path = chars_of(filepath);
        let exts = views_of(&FileType::C.extension());
        let mut k: usize = 0;
        while k < exts.len()
            invariant
                k <= exts.len(),
                path@ == filepath@,
                char_views(exts@) == extensions_of(FileType::C),
                forall|j: int| 0 <= j < k ==> !ends_with(path@, #[trigger] extensions_of(FileType::C)[j]),
            decreases exts.len() - k,
        {
            assert(char_views(exts@)[k as int] == exts@[k as int]@);
            if has_suffix(&path, &exts[k]) {
                return Some(FileType::C);
            }
            k += 1;
        }
        assert(char_views(exts@).len() == exts.len());
        None
    }

    /// File name extensions of this file type.
    pub fn extension(&self) -> (r: Vec<&'static str>)
        ensures
            str_views(r@) == extensions_of(*self),
    {
        let r = match self {
            FileType::C => vec![".c", ".h", ".cpp"],
        };
        assert(str_views(r@) =~= extensions_of(*self));
        r
    }

    /// Keywords tagged `Keyword1`.
    pub fn keyword1(&self) -> (r: Vec<&'static str>)
        ensures
            str_views(r@) == keywords1_of(*self),
    {
        let r = match self {
            FileType::C => vec![
                "switch", "if", "while", "for", "break", "continue", "return", "else", "struct",
                "union", "typedef", "static", "enum", "class", "case",
            ],
        };
        assert(str_views(r@) =~= keywords1_of(*self));
        r
    }

    /// Keywords tagged `Keyword2`.
    pub fn keyword2(&self) -> (r: Vec<&'static str>)
        ensures
            str_views(r@) == keywords2_of(*self),
    {
        let r = match self {
            FileType::C => vec![
                "int", "long", "double", "float", "char", "unsigned", "signed", "void",
            ],
        };
        assert(str_views(r@) =~= keywords2_of(*self));
        r
    }

    /// Whether this file type classifies characters of kind `highlight_type`.
    pub fn is_highlight(&self, highlight_type: HighlightType) -> (r: bool)
        ensures
            r == highlights(*self, highlight_type),
    {
        match self {
            FileType::C => match highlight_type {
                HighlightType::Number => true,
                HighlightType::String => true,
                HighlightType::Comment => true,
                HighlightType::MultilineComment => true,
                HighlightType::Keyword1 => true,
                HighlightType::Keyword2 => true,
            },
        }
    }

    /// Marker that starts a comment running to the end of the line.
    pub fn singleline_comment_start(&self) -> (r: Option<&'static str>)
        ensures
            view_marker(r) == line_comment_of(*self),
    {
        match self {
            FileType::C => Some("//"),
        }
    }

    /// Marker that opens a block comment.
    pub fn multiline_comment_start(&self) -> (r: Option<&'static str>)
        ensures
            view_marker(r) == block_start_of(*self),
    {
        match self {
            FileType::C => Some("/*"),
        }
    }

    /// Marker that closes a block comment.
    pub fn multiline_comment_end(&self) -> (r: Option<&'static str>)
        ensures
            view_marker(r) == block_end_of(*self),
    {
        match self {
            FileType::C => Some("*/"),
        }
    }

    /// Display name of this file type.
    pub fn to_str(&self) -> (r: &'static str)
        ensures
            r@ == name_of(*self),
    {
        match self {
            FileType::C => "C",
        }
    }

    /// The highlighting rules of this file type, as character sequences.
    pub fn syntax(&self) -> (r: Syntax)
        ensures
            r@ == syntax_of(*self),
    {
        let r = Syntax {
            numbers: self.is_highlight(HighlightType::Number),
            strings: self.is_highlight(HighlightType::String),
            comments: self.is_highlight(HighlightType::Comment),
            block_comments: self.is_highlight(HighlightType::MultilineComment),
            keywords1: if self.is_highlight(HighlightType::Keyword1) {
                views_of(&self.keyword1())
            } else {
                Vec::new()
            },
            keywords2: if self.is_highlight(HighlightType::Keyword2) {
                views_of(&self.keyword2())
            } else {
                Vec::new()
            },
            line_comment: marker_chars(self.singleline_comment_start()),
            block_start: marker_chars(self.multiline_comment_start()),
            block_end: marker_chars(self.multiline_comment_end()),
        };
        assert(r@ =~= syntax_of(*self));
        r
    }
}

/// Tags and outbound block-comment flag of the rendered line `render`.
pub fn highlight_render(render: &Vec<char>, ft: Option<FileType>, open_comment: bool) -> (out: (Vec<Highlight>, bool))
    ensures
        (out.0@, out.1) == highlight_line(render@, ft, open_comment),
        out.0.len() == render.len(),
{
    match ft {
        None => {
            let mut tags: Vec<Highlight> = Vec::new();
            let mut i: usize = 0;
            while i < render.len()
                invariant
                    i <= render.len(),
                    tags@ == fill(Highlight::Normal, i as nat),
                decreases render.len() - i,
            {
                tags.push(Highlight::Normal);
                i += 1;
                assert(tags@ =~= fill(Highlight::Normal, i as nat));
            }
            (tags, open_comment)
        },
        Some(f) => classify_line(render, &f.syntax(), open_comment),
    }
}

} // verus!
