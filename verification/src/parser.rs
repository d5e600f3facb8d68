//! A recursive-descent parser for the C headers of the FFI layer.
//!
//! Every parsing step is stated as a function of the header's characters and
//! the cursor's index: the `spec_*` functions below say which result a step
//! yields and where it leaves the cursor, and each method of
//! [`FFIFileParser`] is proved to do exactly that.
use vstd::prelude::*;
use crate::ffi_file::{
    DataType, DataTypeFull, DataTypeView, EnumDefine, EnumDefineView, FFIFile, FFIFileView, FuncParam,
    FuncParamView, FunctionDefine, Stmt, StructItem, StructItemView, StructType,
    enum_field_view,
};
use crate::grammar::{
    lemma_enum_items, lemma_params, lemma_parse_item, lemma_struct_items, spec_enum_items,
    spec_fill_data_type, spec_params, spec_parse_enum, spec_parse_fn_ptr,
    spec_parse_func_define, spec_parse_item, spec_parse_stmts, spec_parse_struct,
    spec_struct_items,
};
use crate::lex_string::{LexString, peek_at, scan_end, skip_non_white};
use crate::text::{char_is_whitespace, chars_of, is_white_space};

verus! {

/// Why a parsing step failed.
#[derive(Debug)]
pub enum ParseError {
    /// The text ended where a token was expected.
    EOF,
    /// A token stood where a type was expected.
    ErrType(Token),
    /// A token stood where another kind of token was expected.
    ErrToken(Token),
    /// An enum's body is not in the expected form.
    ErrEnumFormat,
}

pub enum ParseErrorView {
    EOF,
    ErrType(TokenView),
    ErrToken(TokenView),
    ErrEnumFormat,
}

impl View for ParseError {
    type V = ParseErrorView;

    open spec fn view(&self) -> ParseErrorView {
        match self {
            ParseError::EOF => ParseErrorView::EOF,
            ParseError::ErrType(t) => ParseErrorView::ErrType(t@),
            ParseError::ErrToken(t) => ParseErrorView::ErrToken(t@),
            ParseError::ErrEnumFormat => ParseErrorView::ErrEnumFormat,
        }
    }
}

/// A token of a header.
#[derive(Debug, PartialEq, Eq)]
pub enum Token {
    Type(DataType),
    Symbol(String),
    Typedef,
    Struct,
    Enum,
    LeftBrace,
    RightBrace,
    LeftParent,
    RightParent,
    Comma,
    Eq,
    Const,
}

pub enum TokenView {
    Type(DataTypeView),
    Symbol(Seq<char>),
    Typedef,
    Struct,
    Enum,
    LeftBrace,
    RightBrace,
    LeftParent,
    RightParent,
    Comma,
    Eq,
    Const,
}

impl View for Token {
    type V = TokenView;

    open spec fn view(&self) -> TokenView {
        match self {
            Token::Type(t) => TokenView::Type(t@),
            Token::Symbol(s) => TokenView::Symbol(s@),
            Token::Typedef => TokenView::Typedef,
            Token::Struct => TokenView::Struct,
            Token::Enum => TokenView::Enum,
            Token::LeftBrace => TokenView::LeftBrace,
            Token::RightBrace => TokenView::RightBrace,
            Token::LeftParent => TokenView::LeftParent,
            Token::RightParent => TokenView::RightParent,
            Token::Comma => TokenView::Comma,
            Token::Eq => TokenView::Eq,
            Token::Const => TokenView::Const,
        }
    }
}

/// The view of a result whose error is a [`ParseError`].
pub open spec fn result_view<T: View>(r: Result<T, ParseError>) -> Result<T::V, ParseErrorView> {
    match r {
        Ok(v) => Ok(v@),
        Err(e) => Err(e@),
    }
}

/// What `cast_sym` makes of a token: the name of a symbol, an error for any
/// other token.
pub open spec fn spec_cast_sym(t: TokenView) -> Result<Seq<char>, ParseErrorView> {
    match t {
        TokenView::Symbol(s) => Ok(s),
        _ => Err(ParseErrorView::ErrToken(t)),
    }
}

impl Token {
    /// The name of a symbol token; any other token is an error that carries
    /// it.
    pub fn cast_sym(self) -> (r: Result<String, ParseError>)
        ensures
            match (r, spec_cast_sym(self@)) {
                (Ok(s), Ok(v)) => s@ == v,
                (Err(e), Err(v)) => e@ == v,
                _ => false,
            },
    {
        match self {
            Token::Symbol(sym) => Ok(sym),
            _ => Err(ParseError::ErrToken(self)),
        }
    }
}

/// Characters skipped between tokens: white space and `;`.
pub open spec fn is_char_white(c: char) -> bool {
    is_white_space(c) || c == ';'
}

/// The first index `j >= i` whose character is not skipped between tokens.
pub open spec fn spec_skip_char_white(s: Seq<char>, i: int) -> int
    decreases s.len() - i,
{
    if i < 0 || i >= s.len() || !is_char_white(s[i]) {
        i
    } else {
        spec_skip_char_white(s, i + 1)
    }
}

/// Where a `/* ... */` comment whose body starts at `j` ends: just after the
/// first `*/`, or at the end of the text.
pub open spec fn spec_block_comment_end(s: Seq<char>, j: int) -> int
    decreases s.len() - j,
{
    if j < 0 || j >= s.len() {
        j
    } else if s[j] == '*' && j + 1 < s.len() && s[j + 1] == '/' {
        j + 2
    } else {
        spec_block_comment_end(s, j + 1)
    }
}

/// Where one comment starting at `i` ends: a block comment up to its `*/`, a
/// line comment `//` up to the next white space; `i` itself if no comment
/// starts there.
pub open spec fn spec_skip_comment(s: Seq<char>, i: int) -> int {
    if peek_at(s, i, 1) != Some('/') {
        i
    } else if peek_at(s, i, 2) == Some('*') {
        spec_block_comment_end(s, i + 2)
    } else if peek_at(s, i, 2) == Some('/') {
        skip_non_white(s, i + 2)
    } else {
        i
    }
}

/// The skip between tokens: white space and `;`, at most one comment, then
/// white space and `;` again.
pub open spec fn spec_skip_white(s: Seq<char>, i: int) -> int {
    spec_skip_char_white(s, spec_skip_comment(s, spec_skip_char_white(s, i)))
}

/// The token a punctuation character stands for.
pub open spec fn punct_token(c: char) -> Option<TokenView> {
    if c == '{' {
        Some(TokenView::LeftBrace)
    } else if c == '}' {
        Some(TokenView::RightBrace)
    } else if c == ',' {
        Some(TokenView::Comma)
    } else if c == '=' {
        Some(TokenView::Eq)
    } else if c == '(' {
        Some(TokenView::LeftParent)
    } else if c == ')' {
        Some(TokenView::RightParent)
    } else {
        None
    }
}

/// The characters that end a word, besides white space.
pub open spec fn word_stops() -> Seq<char> {
    seq!['(', ',', ')', ';']
}

/// The token a word stands for: a keyword, a built-in type, or a symbol.
pub open spec fn keyword_token(w: Seq<char>) -> TokenView {
    if w == "typedef"@ {
        TokenView::Typedef
    } else if w == "struct"@ {
        TokenView::Struct
    } else if w == "const"@ {
        TokenView::Const
    } else if w == "uint32_t"@ {
        TokenView::Type(DataTypeView::U32)
    } else if w == "uint64_t"@ {
        TokenView::Type(DataTypeView::U64)
    } else if w == "uint8_t"@ {
        TokenView::Type(DataTypeView::U8)
    } else if w == "float"@ {
        TokenView::Type(DataTypeView::Float)
    } else if w == "bool"@ {
        TokenView::Type(DataTypeView::Bool)
    } else if w == "String"@ {
        TokenView::Type(DataTypeView::String)
    } else if w == "void"@ {
        TokenView::Type(DataTypeView::Void)
    } else if w == "enum"@ {
        TokenView::Enum
    } else {
        TokenView::Symbol(w)
    }
}

/// The next token at or after `i` and the index just past it. After the
/// skip between tokens, a punctuation character is a token of its own;
/// otherwise the token is the word up to the next white space or word stop,
/// read as a symbol when `only_sym` holds. At the end of the text there is
/// no token.
pub open spec fn spec_next_token(s: Seq<char>, i: int, only_sym: bool) -> (
    Result<TokenView, ParseErrorView>,
    int,
) {
    let k = spec_skip_white(s, i);
    if 0 <= k < s.len() && punct_token(s[k]).is_some() {
        (Ok(punct_token(s[k]).unwrap()), k + 1)
    } else {
        let e = scan_end(s, k, word_stops(), true);
        if e == k {
            (Err(ParseErrorView::EOF), k)
        } else {
            let w = s.subrange(k, e);
            (Ok(if only_sym { TokenView::Symbol(w) } else { keyword_token(w) }), e)
        }
    }
}

pub proof fn lemma_skip_char_white(s: Seq<char>, i: int)
    requires
        0 <= i <= s.len(),
    ensures
        i <= spec_skip_char_white(s, i) <= s.len(),
        spec_skip_char_white(s, i) < s.len() ==> !is_char_white(s[spec_skip_char_white(s, i)]),
    decreases s.len() - i,
{
    if i < s.len() && is_char_white(s[i]) {
        lemma_skip_char_white(s, i + 1);
    }
}

pub proof fn lemma_block_comment_end(s: Seq<char>, j: int)
    requires
        0 <= j <= s.len(),
    ensures
        j <= spec_block_comment_end(s, j) <= s.len(),
    decreases s.len() - j,
{
    if j < s.len() && !(s[j] == '*' && j + 1 < s.len() && s[j + 1] == '/') {
        lemma_block_comment_end(s, j + 1);
    }
}

pub proof fn lemma_skip_non_white(s: Seq<char>, i: int)
    requires
        0 <= i <= s.len(),
    ensures
        i <= skip_non_white(s, i) <= s.len(),
    decreases s.len() - i,
{
    if i < s.len() && !is_white_space(s[i]) {
        lemma_skip_non_white(s, i + 1);
    }
}

pub proof fn lemma_scan_end(s: Seq<char>, i: int, stops: Seq<char>, ws: bool)
    requires
        0 <= i <= s.len(),
    ensures
        i <= scan_end(s, i, stops, ws) <= s.len(),
    decreases s.len() - i,
{
    if i < s.len() && !(stops.contains(s[i]) || (ws && is_white_space(s[i]))) {
        lemma_scan_end(s, i + 1, stops, ws);
    }
}

pub proof fn lemma_skip_white(s: Seq<char>, i: int)
    requires
        0 <= i <= s.len(),
    ensures
        i <= spec_skip_white(s, i) <= s.len(),
{
    lemma_skip_char_white(s, i);
    let a = spec_skip_char_white(s, i);
    if peek_at(s, a, 1) == Some('/') {
        if peek_at(s, a, 2) == Some('*') {
            lemma_block_comment_end(s, a + 2);
        } else if peek_at(s, a, 2) == Some('/') {
            lemma_skip_non_white(s, a + 2);
        }
    }
    lemma_skip_char_white(s, spec_skip_comment(s, a));
}

/// A token read moves the cursor forward within the text, past at least one
/// character when it yields a token; the only failure is the end of the
/// text.
pub proof fn lemma_next_token(s: Seq<char>, i: int, only_sym: bool)
    requires
        0 <= i <= s.len(),
    ensures
        i <= spec_next_token(s, i, only_sym).1 <= s.len(),
        spec_next_token(s, i, only_sym).0 is Ok ==> i < spec_next_token(s, i, only_sym).1,
        spec_next_token(s, i, only_sym).0 is Err ==> spec_next_token(s, i, only_sym).0
            == Err::<TokenView, ParseErrorView>(ParseErrorView::EOF),
        spec_next_token(s, i, only_sym).0 is Err ==> spec_next_token(s, i, only_sym).1 == s.len(),
{
    lemma_skip_white(s, i);
    let a = spec_skip_char_white(s, i);
    lemma_skip_char_white(s, i);
    let b = spec_skip_comment(s, a);
    assert(a <= b <= s.len()) by {
        if peek_at(s, a, 1) == Some('/') {
            if peek_at(s, a, 2) == Some('*') {
                lemma_block_comment_end(s, a + 2);
            } else if peek_at(s, a, 2) == Some('/') {
                lemma_skip_non_white(s, a + 2);
            }
        }
    }
    lemma_skip_char_white(s, b);
    let k = spec_skip_white(s, i);
    lemma_scan_end(s, k, word_stops(), true);
    if k < s.len() && punct_token(s[k]).is_none() {
        assert(!is_char_white(s[k]));
        assert(!word_stops().contains(s[k]));
        assert(scan_end(s, k, word_stops(), true) == scan_end(s, k + 1, word_stops(), true));
        lemma_scan_end(s, k + 1, word_stops(), true);
    }
}

/// Whether two strings hold the same characters.
pub fn string_eq_str(a: &String, b: &str) -> (r: bool)
    ensures
        r == (a@ == b@),
{
    let x = chars_of(a.as_str());
    let y = chars_of(b);
    if x.len() != y.len() {
        return false;
    }
    let mut i: usize = 0;
    while i < x.len()
        invariant
            x.len() == y.len(),
            x@ == a@,
            y@ == b@,
            i <= x.len(),
            forall|j: int| 0 <= j < i ==> x@[j] == y@[j],
        decreases x.len() - i,
    {
        if x[i] != y[i] {
            return false;
        }
        i = i + 1;
    }
    assert(x@ =~= y@);
    true
}

/// The token a word stands for.
pub fn keyword_token_of(w: String) -> (t: Token)
    ensures
        t@ == keyword_token(w@),
{
    if string_eq_str(&w, "typedef") {
        Token::Typedef
    } else if string_eq_str(&w, "struct") {
        Token::Struct
    } else if string_eq_str(&w, "const") {
        Token::Const
    } else if string_eq_str(&w, "uint32_t") {
        Token::Type(DataType::U32)
    } else if string_eq_str(&w, "uint64_t") {
        Token::Type(DataType::U64)
    } else if string_eq_str(&w, "uint8_t") {
        Token::Type(DataType::U8)
    } else if string_eq_str(&w, "float") {
        Token::Type(DataType::Float)
    } else if string_eq_str(&w, "bool") {
        Token::Type(DataType::Bool)
    } else if string_eq_str(&w, "String") {
        Token::Type(DataType::String)
    } else if string_eq_str(&w, "void") {
        Token::Type(DataType::Void)
    } else if string_eq_str(&w, "enum") {
        Token::Enum
    } else {
        Token::Symbol(w)
    }
}

/// A parser over the text of one header.
pub struct FFIFileParser {
    name: String,
    lex_string: LexString,
}

impl FFIFileParser {
    /// The characters of the header.
    pub closed spec fn chars(&self) -> Seq<char> {
        self.lex_string.chars()
    }

    /// How far the parser has read.
    pub closed spec fn index(&self) -> int {
        self.lex_string.index()
    }

    /// The name the header is parsed under.
    pub closed spec fn file_name(&self) -> Seq<char> {
        self.name@
    }

    pub closed spec fn wf(&self) -> bool {
        self.lex_string.wf()
    }

    pub proof fn lemma_wf(&self)
        requires
            self.wf(),
        ensures
            0 <= self.index() <= self.chars().len(),
    {
        self.lex_string.lemma_wf();
    }

    /// A parser at the start of `file_source`, for the header `name`.
    pub fn new(file_source: &str, name: String) -> (p: Self)
        requires
            file_source@.len() < usize::MAX,
        ensures
            p.wf(),
            p.chars() == file_source@,
            p.index() == 0,
            p.file_name() == name@,
    {
        let lexer = LexString::new(file_source, 5);
        FFIFileParser { name, lex_string: lexer }
    }

    fn skip_char_white(&mut self)
        requires
            old(self).wf(),
        ensures
            final(self).wf(),
            final(self).chars() == old(self).chars(),
            final(self).file_name() == old(self).file_name(),
            final(self).index() == spec_skip_char_white(old(self).chars(), old(self).index()),
    {
        loop
            invariant
                self.wf(),
                self.chars() == old(self).chars(),
                self.file_name() == old(self).file_name(),
                spec_skip_char_white(self.chars(), self.index()) == spec_skip_char_white(
                    old(self).chars(),
                    old(self).index(),
                ),
            ensures
                self.wf(),
                self.chars() == old(self).chars(),
                self.file_name() == old(self).file_name(),
                spec_skip_char_white(self.chars(), self.index()) == self.index(),
            decreases self.chars().len() - self.index(),
        {
            proof {
                self.lemma_wf();
            }
            match self.lex_string.lookahead(1) {
                Some(chr) => {
                    if char_is_whitespace(chr) || chr == ';' {
                        self.lex_string.next();
                    } else {
                        break;
                    }
                },
                None => {
                    break;
                },
            }
        }
    }

    fn skip_comment(&mut self)
        requires
            old(self).wf(),
        ensures
            final(self).wf(),
            final(self).chars() == old(self).chars(),
            final(self).file_name() == old(self).file_name(),
            final(self).index() == spec_skip_comment(old(self).chars(), old(self).index()),
    {
        let fst = self.lex_string.lookahead(1);
        let snd = self.lex_string.lookahead(2);
        if fst != Some('/') {
            return;
        }
        if snd == Some('*') {
            self.lex_string.next();
            self.lex_string.next();
            loop
                invariant_except_break
                    spec_block_comment_end(self.chars(), self.index()) == spec_block_comment_end(
                        old(self).chars(),
                        old(self).index() + 2,
                    ),
                invariant
                    self.wf(),
                    self.chars() == old(self).chars(),
                    self.file_name() == old(self).file_name(),
                ensures
                    self.index() == spec_block_comment_end(old(self).chars(), old(self).index() + 2),
                decreases self.chars().len() - self.index(),
            {
                proof {
                    self.lemma_wf();
                }
                match self.lex_string.lookahead(1) {
                    Some(chr) => {
                        if chr == '*' && self.lex_string.lookahead(2) == Some('/') {
                            self.lex_string.next();
                            self.lex_string.next();
                            break;
                        } else {
                            self.lex_string.next();
                        }
                    },
                    None => {
                        break;
                    },
                }
            }
        } else if snd == Some('/') {
            self.lex_string.next();
            self.lex_string.next();
            self.lex_string.skip_until_whitespace();
        }
    }

    fn skip_white(&mut self)
        requires
            old(self).wf(),
        ensures
            final(self).wf(),
            final(self).chars() == old(self).chars(),
            final(self).file_name() == old(self).file_name(),
            final(self).index() == spec_skip_white(old(self).chars(), old(self).index()),
    {
        self.skip_char_white();
        self.skip_comment();
        self.skip_char_white();
    }

    /// Reads the next token.
    fn next_token(&mut self, only_sym: bool) -> (r: Result<Token, ParseError>)
        requires
            old(self).wf(),
        ensures
            final(self).wf(),
            final(self).chars() == old(self).chars(),
            final(self).file_name() == old(self).file_name(),
            (result_view(r), final(self).index()) == spec_next_token(
                old(self).chars(),
                old(self).index(),
                only_sym,
            ),
            old(self).index() <= final(self).index() <= old(self).chars().len(),
            r is Ok ==> old(self).index() < final(self).index(),
    {
        proof {
            old(self).lemma_wf();
            lemma_next_token(old(self).chars(), old(self).index(), only_sym);
        }
        self.skip_white();
        proof {
            self.lemma_wf();
        }
        if let Some(chr) = self.lex_string.lookahead(1) {
            let ret = if chr == '{' {
                Some(Token::LeftBrace)
            } else if chr == '}' {
                Some(Token::RightBrace)
            } else if chr == ',' {
                Some(Token::Comma)
            } else if chr == '=' {
                Some(Token::Eq)
            } else if chr == '(' {
                Some(Token::LeftParent)
            } else if chr == ')' {
                Some(Token::RightParent)
            } else {
                None
            };
            if let Some(tok) = ret {
                self.lex_string.next();
                return Ok(tok);
            }
        }
        let stops = vec!['(', ',', ')', ';'];
        proof {
            assert(stops@ =~= word_stops());
        }
        let key_string = self.lex_string.take_while(&stops, true);
        match key_string {
            Some(keyword) => {
                if only_sym {
                    Ok(Token::Symbol(keyword))
                } else {
                    Ok(keyword_token_of(keyword))
                }
            },
            None => Err(ParseError::EOF),
        }
    }
}


/// The views of a sequence of struct items.
pub open spec fn items_view(v: Seq<StructItem>) -> Seq<StructItemView> {
    v.map_values(|x: StructItem| x@)
}

/// The views of a sequence of parameters.
pub open spec fn params_view(v: Seq<FuncParam>) -> Seq<FuncParamView> {
    v.map_values(|x: FuncParam| x@)
}

/// The views of a sequence of enum fields.
pub open spec fn fields_view(v: Seq<(String, Option<String>)>) -> Seq<(Seq<char>, Option<Seq<char>>)> {
    v.map_values(|f: (String, Option<String>)| enum_field_view(f))
}

/// The views of a sequence of declarations.
pub open spec fn stmts_view(v: Seq<Stmt>) -> Seq<crate::ffi_file::StmtView> {
    v.map_values(|x: Stmt| x@)
}

impl FFIFileParser {
    /// Whether `self` holds the same text and name as `other`.
    pub closed spec fn same_text(&self, other: &Self) -> bool {
        &&& self.lex_string.chars() == other.lex_string.chars()
        &&& self.name@ == other.name@
    }

    fn fill_data_type(&mut self, typ: DataType) -> (r: DataTypeFull)
        requires
            old(self).wf(),
        ensures
            final(self).wf(),
            final(self).same_text(old(self)),
            (r@, final(self).index()) == spec_fill_data_type(
                old(self).chars(),
                old(self).index(),
                typ@,
            ),
            old(self).index() <= final(self).index() <= old(self).chars().len(),
    {
        proof {
            old(self).lemma_wf();
            crate::grammar::lemma_fill_data_type(old(self).chars(), old(self).index(), typ@);
        }
        self.skip_white();
        let mut is_ptr = false;
        if self.lex_string.lookahead(1) == Some('*') {
            self.lex_string.next();
            is_ptr = true;
        }
        DataTypeFull { typ, is_ptr }
    }

    fn parse_struct(&mut self) -> (r: Result<StructType, ParseError>)
        requires
            old(self).wf(),
        ensures
            final(self).wf(),
            final(self).same_text(old(self)),
            (result_view(r), final(self).index()) == spec_parse_struct(
                old(self).chars(),
                old(self).index(),
            ),
    {
        let mut items: Vec<StructItem> = Vec::new();
        proof {
            assert(items_view(items@) =~= Seq::<StructItemView>::empty());
        }
        loop
            invariant_except_break
                spec_struct_items(self.chars(), self.index(), items_view(items@))
                    == spec_struct_items(old(self).chars(), old(self).index(), Seq::empty()),
            invariant
                self.wf(),
                self.same_text(old(self)),
            ensures
                spec_struct_items(old(self).chars(), old(self).index(), Seq::empty()) == (
                    Ok::<Seq<StructItemView>, ParseErrorView>(items_view(items@)),
                    self.index(),
                ),
            decreases self.chars().len() - self.index(),
        {
            proof {
                self.lemma_wf();
                lemma_next_token(self.chars(), self.index(), false);
            }
            let item_type0 = match self.next_token(false) {
                Ok(t) => t,
                Err(e) => {
                    return Err(e);
                },
            };
            if matches!(item_type0, Token::RightBrace) {
                break;
            }
            let item_type = if matches!(item_type0, Token::Struct) {
                match self.next_token(false) {
                    Ok(t) => t,
                    Err(e) => {
                        return Err(e);
                    },
                }
            } else {
                item_type0
            };
            let real_type = match item_type {
                Token::Type(typ) => typ,
                Token::Symbol(sym) => DataType::Custom(sym),
                tok => {
                    return Err(ParseError::ErrType(tok));
                },
            };
            let full_type = self.fill_data_type(real_type);
            let item_name = match self.next_token(true) {
                Ok(t) => match t.cast_sym() {
                    Ok(n) => n,
                    Err(e) => {
                        return Err(e);
                    },
                },
                Err(e) => {
                    return Err(e);
                },
            };
            let item = StructItem { typ: full_type, name: item_name };
            let ghost prev = items@;
            items.push(item);
            proof {
                assert(items_view(items@) =~= items_view(prev).push(item@));
            }
        }
        let semi = vec![';'];
        proof {
            assert(semi@ =~= seq![';']);
            self.lemma_wf();
        }
        if let Some(_) = self.lex_string.take_while(&semi, false) {
            self.lex_string.next();
        }
        let struct_type = StructType { items };
        Ok(struct_type)
    }

    fn parse_enum(&mut self) -> (r: Result<EnumDefine, ParseError>)
        requires
            old(self).wf(),
        ensures
            final(self).wf(),
            final(self).same_text(old(self)),
            (result_view(r), final(self).index()) == spec_parse_enum(
                old(self).chars(),
                old(self).index(),
            ),
    {
        let enum_name = match self.next_token(true) {
            Ok(t) => match t.cast_sym() {
                Ok(n) => n,
                Err(e) => {
                    return Err(e);
                },
            },
            Err(e) => {
                return Err(e);
            },
        };
        match self.next_token(false) {
            Ok(Token::LeftBrace) => {},
            Ok(_) => {
                return Err(ParseError::ErrEnumFormat);
            },
            Err(e) => {
                return Err(e);
            },
        }
        let ghost start = self.index();
        proof {
            self.lemma_wf();
        }
        let mut list: Vec<(String, Option<String>)> = Vec::new();
        proof {
            assert(fields_view(list@) =~= Seq::<(Seq<char>, Option<Seq<char>>)>::empty());
        }
        loop
            invariant_except_break
                spec_enum_items(self.chars(), self.index(), fields_view(list@))
                    == spec_enum_items(self.chars(), start, Seq::empty()),
            invariant
                self.wf(),
                self.same_text(old(self)),
                0 <= start <= self.chars().len(),
                spec_parse_enum(old(self).chars(), old(self).index()) == ({
                    let (r, j) = spec_enum_items(old(self).chars(), start, Seq::empty());
                    match r {
                        Err(e) => (Err(e), j),
                        Ok(l) => (Ok(EnumDefineView { name: enum_name@, list: l }), j),
                    }
                }),
            ensures
                spec_enum_items(self.chars(), start, Seq::empty()) == (
                    Ok::<Seq<(Seq<char>, Option<Seq<char>>)>, ParseErrorView>(fields_view(list@)),
                    self.index(),
                ),
            decreases self.chars().len() - self.index(),
        {
            proof {
                self.lemma_wf();
                lemma_next_token(self.chars(), self.index(), true);
            }
            let fst_tok = match self.next_token(true) {
                Ok(t) => t,
                Err(e) => {
                    return Err(e);
                },
            };
            if matches!(fst_tok, Token::RightBrace) {
                break;
            }
            let field_name = match fst_tok.cast_sym() {
                Ok(n) => n,
                Err(e) => {
                    return Err(e);
                },
            };
            proof {
                self.lemma_wf();
                lemma_next_token(self.chars(), self.index(), false);
            }
            let snd_tok = match self.next_token(false) {
                Ok(t) => t,
                Err(e) => {
                    return Err(e);
                },
            };
            match snd_tok {
                Token::Eq => {
                    let value_sym = match self.next_token(true) {
                        Ok(t) => match t.cast_sym() {
                            Ok(n) => n,
                            Err(e) => {
                                return Err(e);
                            },
                        },
                        Err(e) => {
                            return Err(e);
                        },
                    };
                    let ghost prev = list@;
                    let ghost fv = field_name@;
                    let ghost vv = value_sym@;
                    list.push((field_name, Some(value_sym)));
                    proof {
                        assert(fields_view(list@) =~= fields_view(prev).push((fv, Some(vv))));
                    }
                    let trd_tok = match self.next_token(false) {
                        Ok(t) => t,
                        Err(e) => {
                            return Err(e);
                        },
                    };
                    match trd_tok {
                        Token::Comma => {},
                        _ => {
                            break;
                        },
                    }
                },
                Token::Comma => {
                    let ghost prev = list@;
                    let ghost fv = field_name@;
                    list.push((field_name, None));
                    proof {
                        assert(fields_view(list@) =~= fields_view(prev).push((fv, None)));
                    }
                },
                Token::RightBrace => {
                    break;
                },
                _ => {
                    return Err(ParseError::ErrEnumFormat);
                },
            }
        }
        Ok(EnumDefine { name: enum_name, list })
    }

    fn parse_params(&mut self) -> (r: Result<Vec<FuncParam>, ParseError>)
        requires
            old(self).wf(),
        ensures
            final(self).wf(),
            final(self).same_text(old(self)),
            match r {
                Ok(ps) => spec_params(old(self).chars(), old(self).index(), Seq::empty()) == (
                    Ok::<Seq<FuncParamView>, ParseErrorView>(params_view(ps@)),
                    final(self).index(),
                ),
                Err(e) => spec_params(old(self).chars(), old(self).index(), Seq::empty()) == (
                    Err::<Seq<FuncParamView>, ParseErrorView>(e@),
                    final(self).index(),
                ),
            },
    {
        let mut params: Vec<FuncParam> = Vec::new();
        proof {
            assert(params_view(params@) =~= Seq::<FuncParamView>::empty());
        }
        loop
            invariant_except_break
                spec_params(self.chars(), self.index(), params_view(params@)) == spec_params(
                    old(self).chars(),
                    old(self).index(),
                    Seq::empty(),
                ),
            invariant
                self.wf(),
                self.same_text(old(self)),
            ensures
                spec_params(old(self).chars(), old(self).index(), Seq::empty()) == (
                    Ok::<Seq<FuncParamView>, ParseErrorView>(params_view(params@)),
                    self.index(),
                ),
            decreases self.chars().len() - self.index(),
        {
            proof {
                self.lemma_wf();
                lemma_next_token(self.chars(), self.index(), false);
            }
            let first_tok = match self.next_token(false) {
                Ok(t) => t,
                Err(e) => {
                    return Err(e);
                },
            };
            if matches!(first_tok, Token::RightParent) {
                break;
            }
            if matches!(first_tok, Token::Type(DataType::Void)) {
                continue;
            }
            let mut param_tok = first_tok;
            if matches!(param_tok, Token::Struct | Token::Const | Token::Comma) {
                param_tok = match self.next_token(false) {
                    Ok(t) => t,
                    Err(e) => {
                        return Err(e);
                    },
                };
                if matches!(param_tok, Token::Struct | Token::Const) {
                    param_tok = match self.next_token(false) {
                        Ok(t) => t,
                        Err(e) => {
                            return Err(e);
                        },
                    };
                }
            }
            let param_type = match param_tok {
                Token::Type(t) => t,
                Token::Symbol(s) => DataType::Custom(s),
                tok => {
                    return Err(ParseError::ErrToken(tok));
                },
            };
            let full_type = self.fill_data_type(param_type);
            let param_name = match self.next_token(false) {
                Ok(t) => match t.cast_sym() {
                    Ok(n) => n,
                    Err(e) => {
                        return Err(e);
                    },
                },
                Err(e) => {
                    return Err(e);
                },
            };
            let param = FuncParam { name: param_name, typ: full_type };
            let ghost prev = params@;
            params.push(param);
            proof {
                assert(params_view(params@) =~= params_view(prev).push(param@));
            }
            match self.next_token(false) {
                Ok(Token::RightParent) => {
                    break;
                },
                Ok(_) => {},
                Err(e) => {
                    return Err(e);
                },
            }
        }
        Ok(params)
    }

    fn parse_fn_ptr(&mut self, tok_typ: DataType) -> (r: Result<FunctionDefine, ParseError>)
        requires
            old(self).wf(),
        ensures
            final(self).wf(),
            final(self).same_text(old(self)),
            (result_view(r), final(self).index()) == spec_parse_fn_ptr(
                old(self).chars(),
                old(self).index(),
                tok_typ@,
            ),
    {
        proof {
            old(self).lemma_wf();
        }
        self.lex_string.next();
        let name = match self.next_token(true) {
            Ok(t) => match t.cast_sym() {
                Ok(n) => n,
                Err(e) => {
                    return Err(e);
                },
            },
            Err(e) => {
                return Err(e);
            },
        };
        if let Err(e) = self.next_token(false) {
            return Err(e);
        }
        if let Err(e) = self.next_token(false) {
            return Err(e);
        }
        let params = match self.parse_params() {
            Ok(ps) => ps,
            Err(e) => {
                return Err(e);
            },
        };
        Ok(FunctionDefine { ret_type: DataTypeFull { typ: tok_typ, is_ptr: false }, name, params })
    }

    fn parse_func_define(&mut self, tok_typ0: Token) -> (r: Result<FunctionDefine, ParseError>)
        requires
            old(self).wf(),
        ensures
            final(self).wf(),
            final(self).same_text(old(self)),
            (result_view(r), final(self).index()) == spec_parse_func_define(
                old(self).chars(),
                old(self).index(),
                tok_typ0@,
            ),
    {
        self.skip_white();
        let mut tok_typ = tok_typ0;
        if matches!(tok_typ, Token::Struct | Token::Const) {
            tok_typ = match self.next_token(false) {
                Ok(t) => t,
                Err(e) => {
                    return Err(e);
                },
            };
            if matches!(tok_typ, Token::Struct | Token::Const) {
                tok_typ = match self.next_token(false) {
                    Ok(t) => t,
                    Err(e) => {
                        return Err(e);
                    },
                };
            }
        }
        let ret_type = match tok_typ {
            Token::Type(typ) => typ,
            Token::Symbol(sym) => DataType::Custom(sym),
            tok => {
                return Err(ParseError::ErrToken(tok));
            },
        };
        let full_type = self.fill_data_type(ret_type);
        self.skip_white();
        let fn_name = match self.next_token(true) {
            Ok(t) => match t.cast_sym() {
                Ok(n) => n,
                Err(e) => {
                    return Err(e);
                },
            },
            Err(e) => {
                return Err(e);
            },
        };
        self.lex_string.next();
        let params = match self.parse_params() {
            Ok(ps) => ps,
            Err(e) => {
                return Err(e);
            },
        };
        Ok(FunctionDefine { ret_type: full_type, name: fn_name, params })
    }

    fn parse_item(&mut self) -> (r: Result<Stmt, ParseError>)
        requires
            old(self).wf(),
        ensures
            final(self).wf(),
            final(self).same_text(old(self)),
            (result_view(r), final(self).index()) == spec_parse_item(
                old(self).chars(),
                old(self).index(),
            ),
    {
        let tok = match self.next_token(false) {
            Ok(t) => t,
            Err(e) => {
                return Err(e);
            },
        };
        match tok {
            Token::Typedef => {
                let next = match self.next_token(false) {
                    Ok(t) => t,
                    Err(e) => {
                        return Err(e);
                    },
                };
                match next {
                    Token::Struct => {
                        let new_name = match self.next_token(true) {
                            Ok(t) => match t.cast_sym() {
                                Ok(n) => n,
                                Err(e) => {
                                    return Err(e);
                                },
                            },
                            Err(e) => {
                                return Err(e);
                            },
                        };
                        let next_tok = match self.next_token(true) {
                            Ok(t) => t,
                            Err(e) => {
                                return Err(e);
                            },
                        };
                        if matches!(next_tok, Token::LeftBrace) {
                            match self.parse_struct() {
                                Ok(st) => Ok(Stmt::TypedefStruct(new_name, st)),
                                Err(e) => Err(e),
                            }
                        } else {
                            match next_tok.cast_sym() {
                                Ok(alias) => Ok(Stmt::TypedefStructName(new_name, alias)),
                                Err(e) => Err(e),
                            }
                        }
                    },
                    Token::Type(typ) => {
                        let next_tok = match self.next_token(true) {
                            Ok(t) => t,
                            Err(e) => {
                                return Err(e);
                            },
                        };
                        if matches!(next_tok, Token::LeftParent) {
                            match self.parse_fn_ptr(typ) {
                                Ok(f) => Ok(Stmt::TypeDefFuncPtr(f)),
                                Err(e) => Err(e),
                            }
                        } else {
                            match next_tok.cast_sym() {
                                Ok(name) => Ok(Stmt::Typedef(typ, name)),
                                Err(e) => Err(e),
                            }
                        }
                    },
                    other => Err(ParseError::ErrToken(other)),
                }
            },
            Token::Enum => {
                match self.parse_enum() {
                    Ok(e) => Ok(Stmt::EnumDefine(e)),
                    Err(e) => Err(e),
                }
            },
            tok => {
                match self.parse_func_define(tok) {
                    Ok(f) => Ok(Stmt::FuncDefine(f)),
                    Err(e) => Err(e),
                }
            },
        }
    }

    /// Parses the declarations of the header. Each declaration read is kept;
    /// a declaration that fails to parse is passed over; parsing ends at the
    /// end of the text.
    pub fn parse(&mut self) -> (r: Result<FFIFile, ParseError>)
        requires
            old(self).wf(),
        ensures
            final(self).wf(),
            final(self).same_text(old(self)),
            r is Ok,
            final(self).index() == final(self).chars().len(),
            r matches Ok(file) ==> file@ == (FFIFileView {
                name: old(self).file_name(),
                stmts: spec_parse_stmts(old(self).chars(), old(self).index(), Seq::empty()),
            }),
    {
        let mut stmt_list: Vec<Stmt> = Vec::new();
        proof {
            assert(stmts_view(stmt_list@) =~= Seq::<crate::ffi_file::StmtView>::empty());
        }
        loop
            invariant_except_break
                spec_parse_stmts(self.chars(), self.index(), stmts_view(stmt_list@))
                    == spec_parse_stmts(old(self).chars(), old(self).index(), Seq::empty()),
            invariant
                self.wf(),
                self.same_text(old(self)),
            ensures
                spec_parse_stmts(old(self).chars(), old(self).index(), Seq::empty())
                    == stmts_view(stmt_list@),
                self.index() == self.chars().len(),
            decreases self.chars().len() - self.index(),
        {
            proof {
                self.lemma_wf();
                lemma_parse_item(self.chars(), self.index());
            }
            match self.parse_item() {
                Ok(stmt) => {
                    let ghost prev = stmt_list@;
                    let ghost sv = stmt@;
                    stmt_list.push(stmt);
                    proof {
                        assert(stmts_view(stmt_list@) =~= stmts_view(prev).push(sv));
                    }
                },
                Err(ParseError::EOF) => {
                    break;
                },
                Err(_) => {},
            }
        }
        let name = self.name.clone();
        Ok(FFIFile { name, stmts: stmt_list })
    }
}

} // verus!
