//! The header of a Java source file as text: `package`, imports and the
//! first declared type, read through the lexer and the outline parser.
use vstd::prelude::*;

use crate::java::ast::{
    dotted_name, flat, import_block, import_names, is_token, lemma_dotted_shift, lemma_parse_file_header,
    name_piece, spec_parse_file, AstAvailability, AstClass, AstFileView, AstInterface, AstThing,
};
use crate::java::error::AstErrorView;
use crate::java::lexer::{
    is_ascii_letter, is_ident_continue, ident_run_end, keyword_token, lex_from, prepend, ptv, word_view, LexOutcome,
    PositionTokenView, Token, TokenView, emit, spec_lex,
};

verus! {

/// A name word: an ASCII letter, then ASCII letters and `_`, and no
/// keyword of the lexer.
pub open spec fn name_word(w: Seq<char>) -> bool {
    &&& w.len() >= 1
    &&& is_ascii_letter(w[0])
    &&& forall|k: int| 1 <= k < w.len() ==> is_ident_continue(#[trigger] w[k])
    &&& keyword_token(w) is None
}

/// Words joined by `.`.
pub open spec fn dotted(ws: Seq<Seq<char>>) -> Seq<char>
    decreases ws.len(),
{
    if ws.len() == 0 {
        seq![]
    } else if ws.len() == 1 {
        ws[0]
    } else {
        ws[0] + seq!['.'] + dotted(ws.drop_first())
    }
}

/// The tokens of words joined by `.`, the first at `line` and `col`.
pub open spec fn dotted_tokens(ws: Seq<Seq<char>>, line: int, col: int) -> Seq<PositionTokenView>
    decreases ws.len(),
{
    if ws.len() == 0 {
        seq![]
    } else if ws.len() == 1 {
        seq![ptv(TokenView::Identifier(ws[0]), line, col)]
    } else {
        seq![
            ptv(TokenView::Identifier(ws[0]), line, col),
            ptv(TokenView::Fixed(Token::Dot), line, col + ws[0].len()),
        ] + dotted_tokens(ws.drop_first(), line, col + ws[0].len() + 1)
    }
}

proof fn lemma_emit_prepend(t: PositionTokenView, ts: Seq<PositionTokenView>, o: LexOutcome)
    ensures
        emit(t, prepend(ts, o)) == prepend(seq![t] + ts, o),
{
    if let LexOutcome::Tokens(r) = o {
        assert(seq![t] + (ts + r) =~= (seq![t] + ts) + r);
    }
}

proof fn lemma_prepend_twice(a: Seq<PositionTokenView>, b: Seq<PositionTokenView>, o: LexOutcome)
    ensures
        prepend(a, prepend(b, o)) == prepend(a + b, o),
{
    if let LexOutcome::Tokens(r) = o {
        assert(a + (b + r) =~= (a + b) + r);
    }
}

proof fn lemma_ident_run_stops(s: Seq<char>, j: int, e: int)
    requires
        0 <= j <= e <= s.len(),
        forall|k: int| j <= k < e ==> is_ident_continue(#[trigger] s[k]),
        e == s.len() || !is_ident_continue(s[e]),
    ensures
        ident_run_end(s, j) == e,
    decreases e - j,
{
    if j < e {
        lemma_ident_run_stops(s, j + 1, e);
    }
}

/// Lexing a word that the text does not continue.
proof fn lemma_lex_word(s: Seq<char>, i: int, w: Seq<char>, line: int, col: int)
    requires
        0 <= i,
        i + w.len() <= s.len(),
        w.len() >= 1,
        is_ascii_letter(w[0]),
        forall|k: int| 1 <= k < w.len() ==> is_ident_continue(#[trigger] w[k]),
        forall|k: int| 0 <= k < w.len() ==> s[i + k] == #[trigger] w[k],
        i + w.len() == s.len() || !is_ident_continue(s[i + w.len()]),
    ensures
        lex_from(s, i, line, col) == emit(ptv(word_view(w), line, col), lex_from(s, i + w.len(), line, col + w.len())),
{
    let e = i + w.len();
    assert(s[i] == w[0]);
    assert forall|k: int| i + 1 <= k < e implies is_ident_continue(#[trigger] s[k]) by {
        assert(s[i + (k - i)] == w[k - i]);
    }
    lemma_ident_run_stops(s, i + 1, e);
    assert(s.subrange(i, e) =~= w);
}

/// Lexing words joined by `.` that the text does not continue: their
/// tokens, then what follows them.
pub proof fn lemma_lex_dotted(s: Seq<char>, i: int, ws: Seq<Seq<char>>, line: int, col: int)
    requires
        ws.len() >= 1,
        forall|k: int| 0 <= k < ws.len() ==> name_word(#[trigger] ws[k]),
        0 <= i,
        i + dotted(ws).len() <= s.len(),
        forall|k: int| 0 <= k < dotted(ws).len() ==> s[i + k] == #[trigger] dotted(ws)[k],
        i + dotted(ws).len() == s.len() || !is_ident_continue(s[i + dotted(ws).len()]),
    ensures
        lex_from(s, i, line, col) == prepend(
            dotted_tokens(ws, line, col),
            lex_from(s, i + dotted(ws).len(), line, col + dotted(ws).len()),
        ),
    decreases ws.len(),
{
    let w = ws[0];
    assert(name_word(w));
    if ws.len() == 1 {
        assert forall|k: int| 0 <= k < w.len() implies s[i + k] == #[trigger] w[k] by {
            assert(dotted(ws)[k] == w[k]);
        }
        lemma_lex_word(s, i, w, line, col);
        assert(seq![ptv(TokenView::Identifier(w), line, col)] == dotted_tokens(ws, line, col));
    } else {
        let rest = ws.drop_first();
        let d = dotted(ws);
        let e = i + w.len();
        assert(d == w + seq!['.'] + dotted(rest));
        assert forall|k: int| 0 <= k < w.len() implies s[i + k] == #[trigger] w[k] by {
            assert(d[k] == w[k]);
        }
        assert(s[e] == d[w.len() as int]);
        lemma_lex_word(s, i, w, line, col);
        assert forall|k: int| 0 <= k < rest.len() implies name_word(#[trigger] rest[k]) by {
            assert(rest[k] == ws[k + 1]);
        }
        assert forall|k: int| 0 <= k < dotted(rest).len() implies s[e + 1 + k] == #[trigger] dotted(rest)[k] by {
            assert(d[w.len() + 1 + k] == dotted(rest)[k]);
        }
        lemma_lex_dotted(s, e + 1, rest, line, col + w.len() + 1);
        let tail = lex_from(s, e + 1 + dotted(rest).len(), line, col + w.len() + 1 + dotted(rest).len());
        assert(e + 1 + dotted(rest).len() == i + d.len());
        let dot = ptv(TokenView::Fixed(Token::Dot), line, col + w.len());
        assert(lex_from(s, e, line, col + w.len()) == emit(dot, lex_from(s, e + 1, line, col + w.len() + 1)));
        lemma_emit_prepend(dot, dotted_tokens(rest, line, col + w.len() + 1), tail);
        lemma_emit_prepend(
            ptv(TokenView::Identifier(w), line, col),
            seq![dot] + dotted_tokens(rest, line, col + w.len() + 1),
            tail,
        );
        assert(seq![ptv(TokenView::Identifier(w), line, col)] + (seq![dot] + dotted_tokens(rest, line, col + w.len() + 1))
            =~= dotted_tokens(ws, line, col));
    }
}

/// A keyword of the header: ASCII letters only.
pub open spec fn header_word(w: Seq<char>) -> bool {
    &&& w.len() >= 1
    &&& forall|k: int| 0 <= k < w.len() ==> is_ascii_letter(#[trigger] w[k])
}

/// The keywords of a file's header spell their tokens.
proof fn lemma_header_words()
    ensures
        word_view("package"@) == TokenView::Fixed(Token::Package),
        word_view("import"@) == TokenView::Fixed(Token::Import),
        word_view("public"@) == TokenView::Fixed(Token::Public),
        word_view("private"@) == TokenView::Fixed(Token::Private),
        word_view("protected"@) == TokenView::Fixed(Token::Protected),
        word_view("class"@) == TokenView::Fixed(Token::Class),
        word_view("interface"@) == TokenView::Fixed(Token::Interface),
        "package"@.len() == 7,
        "import"@.len() == 6,
        header_word("package"@),
        header_word("import"@),
        header_word("public"@),
        header_word("private"@),
        header_word("protected"@),
        header_word("class"@),
        header_word("interface"@),
{
    reveal_strlit("if");
    reveal_strlit("true");
    reveal_strlit("false");
    reveal_strlit("while");
    reveal_strlit("package");
    reveal_strlit("import");
    reveal_strlit("public");
    reveal_strlit("private");
    reveal_strlit("protected");
    reveal_strlit("class");
    reveal_strlit("interface");
    reveal_strlit("enum");
    reveal_strlit("void");
    reveal_strlit("throws");
    reveal_strlit("int");
    reveal_strlit("double");
    reveal_strlit("float");
    reveal_strlit("extends");
    reveal_strlit("implements");
    reveal_strlit("new");
    reveal_strlit("return");
    assert("package"@ != "if"@ && "package"@ != "true"@ && "package"@ != "false"@ && "package"@ != "while"@) by {
        assert("package"@.len() == 7 && "package"@[0] == 'p');
        assert("if"@.len() == 2 && "if"@[0] == 'i');
        assert("true"@.len() == 4 && "true"@[0] == 't');
        assert("false"@.len() == 5 && "false"@[0] == 'f');
        assert("while"@.len() == 5 && "while"@[0] == 'w');
    }
    assert("import"@ != "if"@ && "import"@ != "true"@ && "import"@ != "false"@ && "import"@ != "while"@ && "import"@ != "package"@) by {
        assert("import"@.len() == 6 && "import"@[0] == 'i');
        assert("if"@.len() == 2 && "if"@[0] == 'i');
        assert("true"@.len() == 4 && "true"@[0] == 't');
        assert("false"@.len() == 5 && "false"@[0] == 'f');
        assert("while"@.len() == 5 && "while"@[0] == 'w');
        assert("package"@.len() == 7 && "package"@[0] == 'p');
    }
    assert("public"@ != "if"@ && "public"@ != "true"@ && "public"@ != "false"@ && "public"@ != "while"@ && "public"@ != "package"@ && "public"@ != "import"@) by {
        assert("public"@.len() == 6 && "public"@[0] == 'p');
        assert("if"@.len() == 2 && "if"@[0] == 'i');
        assert("true"@.len() == 4 && "true"@[0] == 't');
        assert("false"@.len() == 5 && "false"@[0] == 'f');
        assert("while"@.len() == 5 && "while"@[0] == 'w');
        assert("package"@.len() == 7 && "package"@[0] == 'p');
        assert("import"@.len() == 6 && "import"@[0] == 'i');
    }
    assert("private"@ != "if"@ && "private"@ != "true"@ && "private"@ != "false"@ && "private"@ != "while"@ && "private"@ != "package"@ && "private"@ != "import"@ && "private"@ != "public"@) by {
        assert("private"@.len() == 7 && "private"@[0] == 'p');
        assert("if"@.len() == 2 && "if"@[0] == 'i');
        assert("true"@.len() == 4 && "true"@[0] == 't');
        assert("false"@.len() == 5 && "false"@[0] == 'f');
        assert("while"@.len() == 5 && "while"@[0] == 'w');
        assert("package"@.len() == 7 && "package"@[0] == 'p');
        assert("package"@[1] == 'a' && "private"@[1] == 'r');
        assert("import"@.len() == 6 && "import"@[0] == 'i');
        assert("public"@.len() == 6 && "public"@[0] == 'p');
    }
    assert("protected"@ != "if"@ && "protected"@ != "true"@ && "protected"@ != "false"@ && "protected"@ != "while"@ && "protected"@ != "package"@ && "protected"@ != "import"@ && "protected"@ != "public"@ && "protected"@ != "private"@) by {
        assert("protected"@.len() == 9 && "protected"@[0] == 'p');
        assert("if"@.len() == 2 && "if"@[0] == 'i');
        assert("true"@.len() == 4 && "true"@[0] == 't');
        assert("false"@.len() == 5 && "false"@[0] == 'f');
        assert("while"@.len() == 5 && "while"@[0] == 'w');
        assert("package"@.len() == 7 && "package"@[0] == 'p');
        assert("import"@.len() == 6 && "import"@[0] == 'i');
        assert("public"@.len() == 6 && "public"@[0] == 'p');
        assert("private"@.len() == 7 && "private"@[0] == 'p');
    }
    assert("class"@ != "if"@ && "class"@ != "true"@ && "class"@ != "false"@ && "class"@ != "while"@ && "class"@ != "package"@ && "class"@ != "import"@ && "class"@ != "public"@ && "class"@ != "private"@ && "class"@ != "protected"@) by {
        assert("class"@.len() == 5 && "class"@[0] == 'c');
        assert("if"@.len() == 2 && "if"@[0] == 'i');
        assert("true"@.len() == 4 && "true"@[0] == 't');
        assert("false"@.len() == 5 && "false"@[0] == 'f');
        assert("while"@.len() == 5 && "while"@[0] == 'w');
        assert("package"@.len() == 7 && "package"@[0] == 'p');
        assert("import"@.len() == 6 && "import"@[0] == 'i');
        assert("public"@.len() == 6 && "public"@[0] == 'p');
        assert("private"@.len() == 7 && "private"@[0] == 'p');
        assert("protected"@.len() == 9 && "protected"@[0] == 'p');
    }
    assert("interface"@ != "if"@ && "interface"@ != "true"@ && "interface"@ != "false"@ && "interface"@ != "while"@ && "interface"@ != "package"@ && "interface"@ != "import"@ && "interface"@ != "public"@ && "interface"@ != "private"@ && "interface"@ != "protected"@ && "interface"@ != "class"@) by {
        assert("interface"@.len() == 9 && "interface"@[0] == 'i');
        assert("if"@.len() == 2 && "if"@[0] == 'i');
        assert("true"@.len() == 4 && "true"@[0] == 't');
        assert("false"@.len() == 5 && "false"@[0] == 'f');
        assert("while"@.len() == 5 && "while"@[0] == 'w');
        assert("package"@.len() == 7 && "package"@[0] == 'p');
        assert("import"@.len() == 6 && "import"@[0] == 'i');
        assert("public"@.len() == 6 && "public"@[0] == 'p');
        assert("private"@.len() == 7 && "private"@[0] == 'p');
        assert("protected"@.len() == 9 && "protected"@[0] == 'p');
        assert("class"@.len() == 5 && "class"@[0] == 'c');
    }
}

/// The text of one import declaration: `import `, a dotted name, `.*`
/// where it imports all of a package, and `;`.
pub open spec fn import_text(q: Seq<Seq<char>>, star: bool) -> Seq<char> {
    "import"@ + seq![' '] + dotted(q) + (if star {
        seq!['.', '*']
    } else {
        seq![]
    }) + seq![';']
}

/// The name that an import declaration gives, `.*` kept.
pub open spec fn import_name(q: Seq<Seq<char>>, star: bool) -> Seq<char> {
    dotted(q) + if star {
        seq!['.', '*']
    } else {
        seq![]
    }
}

/// The tokens of one import declaration, the first at `line` and `col`.
pub open spec fn import_tokens(q: Seq<Seq<char>>, star: bool, line: int, col: int) -> Seq<PositionTokenView> {
    let e = col + 7 + dotted(q).len();
    seq![ptv(TokenView::Fixed(Token::Import), line, col)] + dotted_tokens(q, line, col + 7) + (if star {
        seq![ptv(TokenView::Fixed(Token::Dot), line, e), ptv(TokenView::Fixed(Token::Star), line, e + 1)]
    } else {
        seq![]
    }) + seq![ptv(TokenView::Fixed(Token::Semicolon), line, if star { e + 2 } else { e })]
}

/// Words that make an import's name: at least one, each a name word.
pub open spec fn name_words(ws: Seq<Seq<char>>) -> bool {
    &&& ws.len() >= 1
    &&& forall|k: int| 0 <= k < ws.len() ==> name_word(#[trigger] ws[k])
}

/// Lexing one import declaration: its tokens, then what follows it.
proof fn lemma_lex_import(s: Seq<char>, i: int, q: Seq<Seq<char>>, star: bool, line: int, col: int)
    requires
        name_words(q),
        0 <= i,
        i + import_text(q, star).len() <= s.len(),
        forall|k: int| 0 <= k < import_text(q, star).len() ==> s[i + k] == #[trigger] import_text(q, star)[k],
    ensures
        lex_from(s, i, line, col) == prepend(
            import_tokens(q, star, line, col),
            lex_from(s, i + import_text(q, star).len(), line, col + import_text(q, star).len()),
        ),
{
    lemma_header_words();
    let t = import_text(q, star);
    let d = dotted(q);
    let kw = "import"@;
    let tail_chars: Seq<char> = if star { seq!['.', '*'] } else { seq![] };
    assert(t == kw + seq![' '] + d + tail_chars + seq![';']);
    assert forall|k: int| 0 <= k < kw.len() implies s[i + k] == #[trigger] kw[k] by {
        assert(t[k] == kw[k]);
    }
    assert(s[i + 6] == t[6]);
    assert(forall|k: int| 0 <= k < kw.len() ==> is_ascii_letter(#[trigger] kw[k]));
    lemma_lex_word(s, i, kw, line, col);
    assert(s[i + 6] == ' ');
    assert(lex_from(s, i + 6, line, col + 6) == lex_from(s, i + 7, line, col + 7));
    assert forall|k: int| 0 <= k < d.len() implies s[i + 7 + k] == #[trigger] d[k] by {
        assert(t[7 + k] == d[k]);
    }
    let e: int = i + 7 + d.len();
    assert(s[e] == t[7 + d.len() as int]);
    lemma_lex_dotted(s, i + 7, q, line, col + 7);
    let ec: int = col + 7 + d.len();
    let semi_at = if star { e + 2 } else { e };
    let semi_col = if star { ec + 2 } else { ec };
    assert(s[semi_at] == t[semi_at - i]);
    assert(s[semi_at] == ';');
    let after = lex_from(s, semi_at + 1, line, semi_col + 1);
    let semi = ptv(TokenView::Fixed(Token::Semicolon), line, semi_col);
    assert(lex_from(s, semi_at, line, semi_col) == emit(semi, after));
    assert(semi_at + 1 == i + t.len());
    assert(semi_col + 1 == col + t.len());
    let stars: Seq<PositionTokenView> = if star {
        seq![ptv(TokenView::Fixed(Token::Dot), line, ec), ptv(TokenView::Fixed(Token::Star), line, ec + 1)]
    } else {
        seq![]
    };
    if star {
        assert(s[e] == '.');
        assert(s[e + 1] == t[e + 1 - i]);
        assert(s[e + 1] == '*');
        let dot = ptv(TokenView::Fixed(Token::Dot), line, ec);
        let st = ptv(TokenView::Fixed(Token::Star), line, ec + 1);
        assert(lex_from(s, e + 1, line, ec + 1) == emit(st, lex_from(s, e + 2, line, ec + 2)));
        assert(lex_from(s, e, line, ec) == emit(dot, lex_from(s, e + 1, line, ec + 1)));
        lemma_emit_prepend(st, seq![semi], after);
        lemma_emit_prepend(dot, seq![st, semi], after);
        assert(seq![st] + seq![semi] =~= seq![st, semi]);
        assert(seq![dot] + seq![st, semi] =~= stars + seq![semi]);
    } else {
        lemma_emit_prepend(semi, seq![], after);
        assert(seq![semi] + Seq::<PositionTokenView>::empty() =~= stars + seq![semi]);
    }
    assert(lex_from(s, e, line, ec) == prepend(stars + seq![semi], after));
    lemma_prepend_twice(dotted_tokens(q, line, col + 7), stars + seq![semi], after);
    let imp = ptv(TokenView::Fixed(Token::Import), line, col);
    lemma_emit_prepend(imp, dotted_tokens(q, line, col + 7) + (stars + seq![semi]), after);
    assert(seq![imp] + (dotted_tokens(q, line, col + 7) + (stars + seq![semi])) =~= import_tokens(q, star, line, col));
}

/// The name that tokens spell is the name of a prefix, then that of the
/// rest.
proof fn lemma_dotted_name_concat(a: Seq<PositionTokenView>, b: Seq<PositionTokenView>, m: int, star: bool)
    requires
        0 <= m <= b.len(),
    ensures
        dotted_name(a + b, 0, a.len() + m, star) == dotted_name(a, 0, a.len() as int, star) + dotted_name(b, 0, m, star),
    decreases m,
{
    if m == 0 {
        lemma_dotted_shift(a + b, a, 0, 0, a.len() as int, star);
        assert(dotted_name(a, 0, a.len() as int, star) + Seq::<char>::empty() =~= dotted_name(a, 0, a.len() as int, star));
    } else {
        lemma_dotted_name_concat(a, b, m - 1, star);
        assert((a + b)[a.len() + m - 1] == b[m - 1]);
        assert(dotted_name(a, 0, a.len() as int, star) + dotted_name(b, 0, m - 1, star) + name_piece(b[m - 1].token, star)
            =~= dotted_name(a, 0, a.len() as int, star) + (dotted_name(b, 0, m - 1, star) + name_piece(b[m - 1].token, star)));
    }
}

/// Every token of dotted words is a word or a `.`.
pub open spec fn word_or_dot(t: PositionTokenView) -> bool {
    t.token is Identifier || t.token == TokenView::Fixed(Token::Dot)
}

/// The tokens of dotted words spell those words joined by `.`, and each
/// is a word or a `.`.
proof fn lemma_dotted_tokens(ws: Seq<Seq<char>>, line: int, col: int, star: bool)
    ensures
        dotted_name(dotted_tokens(ws, line, col), 0, dotted_tokens(ws, line, col).len() as int, star) == dotted(ws),
        forall|k: int| 0 <= k < dotted_tokens(ws, line, col).len() ==> word_or_dot(#[trigger] dotted_tokens(ws, line, col)[k]),
        ws.len() >= 1 ==> dotted_tokens(ws, line, col).len() >= 1,
    decreases ws.len(),
{
    let dt = dotted_tokens(ws, line, col);
    if ws.len() == 1 {
        assert(dotted_name(dt, 0, 0, star) =~= Seq::<char>::empty());
        assert(Seq::<char>::empty() + ws[0] =~= ws[0]);
    } else if ws.len() > 1 {
        let rest = ws.drop_first();
        let c2 = col + ws[0].len() + 1;
        lemma_dotted_tokens(rest, line, c2, star);
        let head = seq![
            ptv(TokenView::Identifier(ws[0]), line, col),
            ptv(TokenView::Fixed(Token::Dot), line, col + ws[0].len()),
        ];
        lemma_dotted_name_concat(head, dotted_tokens(rest, line, c2), dotted_tokens(rest, line, c2).len() as int, star);
        assert(dotted_name(head, 0, 0, star) =~= Seq::<char>::empty());
        assert(dotted_name(head, 0, 1, star) =~= ws[0]);
        assert(dotted_name(head, 0, 2, star) =~= ws[0] + seq!['.']);
        assert forall|k: int| 0 <= k < dt.len() implies word_or_dot(#[trigger] dt[k]) by {
            if k >= 2 {
                assert(dt[k] == dotted_tokens(rest, line, c2)[k - 2]);
            }
        }
    }
}

/// The text of import declarations one after another.
pub open spec fn imports_text(qs: Seq<(Seq<Seq<char>>, bool)>) -> Seq<char>
    decreases qs.len(),
{
    if qs.len() == 0 {
        seq![]
    } else {
        import_text(qs[0].0, qs[0].1) + imports_text(qs.drop_first())
    }
}

/// The tokens of import declarations one after another, a block for each,
/// the first at `line` and `col`.
pub open spec fn import_blocks(qs: Seq<(Seq<Seq<char>>, bool)>, line: int, col: int) -> Seq<Seq<PositionTokenView>>
    decreases qs.len(),
{
    if qs.len() == 0 {
        seq![]
    } else {
        seq![import_tokens(qs[0].0, qs[0].1, line, col)] + import_blocks(
            qs.drop_first(),
            line,
            col + import_text(qs[0].0, qs[0].1).len(),
        )
    }
}

/// The names that import declarations give, in order.
pub open spec fn imported(qs: Seq<(Seq<Seq<char>>, bool)>) -> Seq<Seq<char>> {
    qs.map_values(|q: (Seq<Seq<char>>, bool)| import_name(q.0, q.1))
}

/// Lexing import declarations: their blocks of tokens, then what follows.
proof fn lemma_lex_imports(s: Seq<char>, i: int, qs: Seq<(Seq<Seq<char>>, bool)>, line: int, col: int)
    requires
        forall|j: int| 0 <= j < qs.len() ==> name_words(#[trigger] qs[j].0),
        0 <= i,
        i + imports_text(qs).len() <= s.len(),
        forall|k: int| 0 <= k < imports_text(qs).len() ==> s[i + k] == #[trigger] imports_text(qs)[k],
    ensures
        lex_from(s, i, line, col) == prepend(
            flat(import_blocks(qs, line, col)),
            lex_from(s, i + imports_text(qs).len(), line, col + imports_text(qs).len()),
        ),
    decreases qs.len(),
{
    let bs = import_blocks(qs, line, col);
    if qs.len() == 0 {
        assert(flat(bs) =~= Seq::<PositionTokenView>::empty());
        if let LexOutcome::Tokens(r) = lex_from(s, i, line, col) {
            assert(Seq::<PositionTokenView>::empty() + r =~= r);
        }
    } else {
        let t = import_text(qs[0].0, qs[0].1);
        let rest = qs.drop_first();
        assert(name_words(qs[0].0));
        assert(imports_text(qs) == t + imports_text(rest));
        assert forall|k: int| 0 <= k < t.len() implies s[i + k] == #[trigger] t[k] by {
            assert(imports_text(qs)[k] == t[k]);
        }
        lemma_lex_import(s, i, qs[0].0, qs[0].1, line, col);
        assert forall|j: int| 0 <= j < rest.len() implies name_words(#[trigger] rest[j].0) by {
            assert(rest[j] == qs[j + 1]);
        }
        assert forall|k: int| 0 <= k < imports_text(rest).len() implies s[i + t.len() + k] == #[trigger] imports_text(rest)[k] by {
            assert(imports_text(qs)[t.len() + k] == imports_text(rest)[k]);
        }
        lemma_lex_imports(s, i + t.len(), rest, line, col + t.len());
        assert(bs.drop_first() =~= import_blocks(rest, line, col + t.len()));
        assert(flat(bs) == bs[0] + flat(bs.drop_first()));
        lemma_prepend_twice(
            import_tokens(qs[0].0, qs[0].1, line, col),
            flat(import_blocks(rest, line, col + t.len())),
            lex_from(s, i + imports_text(qs).len(), line, col + imports_text(qs).len()),
        );
    }
}

/// Each block of import tokens is an import declaration, and the blocks
/// give the names of the declarations.
proof fn lemma_import_blocks(qs: Seq<(Seq<Seq<char>>, bool)>, line: int, col: int)
    requires
        forall|j: int| 0 <= j < qs.len() ==> name_words(#[trigger] qs[j].0),
    ensures
        forall|j: int| 0 <= j < import_blocks(qs, line, col).len() ==> import_block(#[trigger] import_blocks(qs, line, col)[j]),
        import_names(import_blocks(qs, line, col)) == imported(qs),
    decreases qs.len(),
{
    let bs = import_blocks(qs, line, col);
    if qs.len() == 0 {
        assert(import_names(bs) =~= imported(qs));
    } else {
        let (q, star) = qs[0];
        let rest = qs.drop_first();
        assert(name_words(q));
        assert forall|j: int| 0 <= j < rest.len() implies name_words(#[trigger] rest[j].0) by {
            assert(rest[j] == qs[j + 1]);
        }
        let c2 = col + import_text(q, star).len();
        lemma_import_blocks(rest, line, c2);
        let b = import_tokens(q, star, line, col);
        let dt = dotted_tokens(q, line, col + 7);
        lemma_dotted_tokens(q, line, col + 7, true);
        let e = col + 7 + dotted(q).len();
        let stars: Seq<PositionTokenView> = if star {
            seq![ptv(TokenView::Fixed(Token::Dot), line, e), ptv(TokenView::Fixed(Token::Star), line, e + 1)]
        } else {
            seq![]
        };
        let semi = ptv(TokenView::Fixed(Token::Semicolon), line, if star { e + 2 } else { e });
        let mid = dt + stars;
        assert(b =~= seq![ptv(TokenView::Fixed(Token::Import), line, col)] + mid + seq![semi]);
        assert forall|k: int| 0 <= k < mid.len() implies b[1 + k] == #[trigger] mid[k] by {}
        lemma_dotted_shift(b, mid, 1, 0, mid.len() as int, true);
        lemma_dotted_name_concat(dt, stars, stars.len() as int, true);
        if star {
            assert(dotted_name(stars, 0, 0, true) =~= Seq::<char>::empty());
            assert(dotted_name(stars, 0, 1, true) =~= seq!['.']);
            assert(dotted_name(stars, 0, 2, true) =~= seq!['.', '*']);
        } else {
            assert(dotted_name(stars, 0, 0, true) =~= Seq::<char>::empty());
        }
        assert(dotted_name(b, 1, b.len() - 1, true) =~= import_name(q, star));
        assert(import_block(b)) by {
            assert forall|k: int| 1 <= k < b.len() - 1 implies !is_token(#[trigger] b[k], Token::Semicolon) by {
                assert(b[k] == mid[k - 1]);
                if k - 1 < dt.len() {
                    assert(word_or_dot(dt[k - 1]));
                }
            }
        }
        assert(bs[0] == b);
        assert(bs.drop_first() =~= import_blocks(rest, line, c2));
        assert forall|j: int| 0 <= j < bs.len() implies import_block(#[trigger] bs[j]) by {
            if j > 0 {
                assert(bs[j] == import_blocks(rest, line, c2)[j - 1]);
            }
        }
        assert(import_names(bs) =~= imported(qs)) by {
            assert(import_names(bs) == seq![dotted_name(bs[0], 1, bs[0].len() - 1, true)] + import_names(bs.drop_first()));
            assert(imported(qs) =~= seq![import_name(q, star)] + imported(rest));
        }
    }
}

/// The header of a file: `package P;`, the import declarations, then an
/// availability and `class` or `interface`, each followed by a space.
pub open spec fn header_text(
    p: Seq<Seq<char>>,
    qs: Seq<(Seq<Seq<char>>, bool)>,
    a: Seq<char>,
    k: Seq<char>,
) -> Seq<char> {
    "package"@ + seq![' '] + dotted(p) + seq![';'] + imports_text(qs) + seq![' '] + a + seq![' '] + k + seq![' ']
}

/// The availability that one of `public`, `private` and `protected` names.
pub open spec fn availability_word(a: Seq<char>) -> AstAvailability {
    if a == "public"@ {
        AstAvailability::Public
    } else if a == "private"@ {
        AstAvailability::Private
    } else {
        AstAvailability::Protected
    }
}

/// What a file with that header is read as: the package `P`, the imported
/// names in order, and a class or an interface of that availability.
pub open spec fn header_file(
    p: Seq<Seq<char>>,
    qs: Seq<(Seq<Seq<char>>, bool)>,
    a: Seq<char>,
    k: Seq<char>,
) -> AstFileView {
    AstFileView {
        package: dotted(p),
        imports: imported(qs),
        thing: if k == "class"@ {
            AstThing::Class(AstClass { avaliability: availability_word(a) })
        } else {
            AstThing::Interface(AstInterface { avaliability: availability_word(a) })
        },
    }
}

/// The tokens that a file header lexes to, in order, all on the first
/// line: `package`, the package name, `;`, the import blocks, the
/// availability and the kind.
spec fn header_front(
    p: Seq<Seq<char>>,
    qs: Seq<(Seq<Seq<char>>, bool)>,
    a: Seq<char>,
    k: Seq<char>,
) -> Seq<PositionTokenView> {
    let dl = dotted(p).len() as int;
    let i0 = 9 + dl;
    let ia = i0 + imports_text(qs).len() + 1;
    let ik = ia + a.len() + 1;
    seq![ptv(TokenView::Fixed(Token::Package), 0, 0)] + (dotted_tokens(p, 0, 8) + (seq![
        ptv(TokenView::Fixed(Token::Semicolon), 0, 8 + dl),
    ] + (flat(import_blocks(qs, 0, i0)) + (seq![ptv(word_view(a), 0, ia)] + seq![ptv(word_view(k), 0, ik)]))))
}

/// Lexing a file header, then any text: the header's tokens, then what
/// the text after it gives.
#[verifier::rlimit(60)]
proof fn lemma_lex_header(
    p: Seq<Seq<char>>,
    qs: Seq<(Seq<Seq<char>>, bool)>,
    a: Seq<char>,
    k: Seq<char>,
    r: Seq<char>,
)
    requires
        name_words(p),
        forall|j: int| 0 <= j < qs.len() ==> name_words(#[trigger] qs[j].0),
        a == "public"@ || a == "private"@ || a == "protected"@,
        k == "class"@ || k == "interface"@,
    ensures
        ({
            let s = header_text(p, qs, a, k) + r;
            let n = header_text(p, qs, a, k).len() as int;
            spec_lex(s) == prepend(header_front(p, qs, a, k), lex_from(s, n, 0, n))
        }),
{
    lemma_header_words();
    let h = header_text(p, qs, a, k);
    let s = h + r;
    let kw = "package"@;
    let d = dotted(p);
    let it = imports_text(qs);
    let dl: int = d.len() as int;
    let i0: int = 9 + dl;
    let i1: int = i0 + it.len();
    let ia: int = i1 + 1;
    let ik: int = ia + a.len() + 1;
    let end: int = ik + k.len() + 1;
    assert(h =~= kw + seq![' '] + d + seq![';'] + it + seq![' '] + a + seq![' '] + k + seq![' ']);
    assert(h.len() == end);
    assert forall|j: int| 0 <= j < h.len() implies s[j] == #[trigger] h[j] by {}
    // `package`, a space
    assert forall|j: int| 0 <= j < kw.len() implies s[j] == #[trigger] kw[j] by {
        assert(h[j] == kw[j]);
    }
    assert(s[7] == h[7]);
    assert(forall|j: int| 0 <= j < kw.len() ==> is_ascii_letter(#[trigger] kw[j]));
    lemma_lex_word(s, 0, kw, 0, 0);
    assert(lex_from(s, 7, 0, 7) == lex_from(s, 8, 0, 8));
    // the package name and `;`
    assert forall|j: int| 0 <= j < d.len() implies s[8 + j] == #[trigger] d[j] by {
        assert(h[8 + j] == d[j]);
    }
    assert(s[8 + dl] == h[8 + dl]);
    lemma_lex_dotted(s, 8, p, 0, 8);
    let semi = ptv(TokenView::Fixed(Token::Semicolon), 0, 8 + dl);
    assert(lex_from(s, 8 + dl, 0, 8 + dl) == emit(semi, lex_from(s, i0, 0, i0)));
    // the imports
    assert forall|j: int| 0 <= j < it.len() implies s[i0 + j] == #[trigger] it[j] by {
        assert(h[i0 + j] == it[j]);
    }
    lemma_lex_imports(s, i0, qs, 0, i0);
    // a space, the availability, a space, the kind, a space
    assert(s[i1] == h[i1]);
    assert(lex_from(s, i1, 0, i1) == lex_from(s, ia, 0, ia));
    assert forall|j: int| 0 <= j < a.len() implies s[ia + j] == #[trigger] a[j] by {
        assert(h[ia + j] == a[j]);
    }
    assert(s[ia + a.len()] == h[ia + a.len()]);
    assert(forall|j: int| 1 <= j < a.len() ==> is_ident_continue(#[trigger] a[j]));
    lemma_lex_word(s, ia, a, 0, ia);
    assert(lex_from(s, ia + a.len(), 0, ia + a.len()) == lex_from(s, ik, 0, ik));
    assert forall|j: int| 0 <= j < k.len() implies s[ik + j] == #[trigger] k[j] by {
        assert(h[ik + j] == k[j]);
    }
    assert(s[ik + k.len()] == h[ik + k.len()]);
    assert(forall|j: int| 1 <= j < k.len() ==> is_ident_continue(#[trigger] k[j]));
    lemma_lex_word(s, ik, k, 0, ik);
    assert(lex_from(s, ik + k.len(), 0, ik + k.len()) == lex_from(s, end, 0, end));
    let x = lex_from(s, end, 0, end);
    let pkg = ptv(TokenView::Fixed(Token::Package), 0, 0);
    let pn = dotted_tokens(p, 0, 8);
    let bs = import_blocks(qs, 0, i0);
    let at = ptv(word_view(a), 0, ia);
    let kt = ptv(word_view(k), 0, ik);
    lemma_emit_prepend(kt, seq![], x);
    assert(seq![kt] + Seq::<PositionTokenView>::empty() =~= seq![kt]);
    lemma_emit_prepend(at, seq![kt], x);
    lemma_prepend_twice(flat(bs), seq![at] + seq![kt], x);
    lemma_emit_prepend(semi, flat(bs) + (seq![at] + seq![kt]), x);
    lemma_prepend_twice(pn, seq![semi] + (flat(bs) + (seq![at] + seq![kt])), x);
    lemma_emit_prepend(pkg, pn + (seq![semi] + (flat(bs) + (seq![at] + seq![kt]))), x);
}

/// A text of a file header (see `header_text`) followed by any text `r`:
/// where the whole lexes, the outline parser reads it as `header_file`,
/// whatever `r` holds.
#[verifier::rlimit(60)]
pub proof fn lemma_parse_file_text(
    p: Seq<Seq<char>>,
    qs: Seq<(Seq<Seq<char>>, bool)>,
    a: Seq<char>,
    k: Seq<char>,
    r: Seq<char>,
)
    requires
        name_words(p),
        forall|j: int| 0 <= j < qs.len() ==> name_words(#[trigger] qs[j].0),
        a == "public"@ || a == "private"@ || a == "protected"@,
        k == "class"@ || k == "interface"@,
    ensures
        spec_lex(header_text(p, qs, a, k) + r) matches LexOutcome::Tokens(ts) ==> spec_parse_file(ts, 0) == Ok::<
            AstFileView,
            AstErrorView,
        >(header_file(p, qs, a, k)),
{
    lemma_header_words();
    lemma_lex_header(p, qs, a, k, r);
    let s = header_text(p, qs, a, k) + r;
    let n = header_text(p, qs, a, k).len() as int;
    let x = lex_from(s, n, 0, n);
    let dl = dotted(p).len() as int;
    let i0 = 9 + dl;
    let ia = i0 + imports_text(qs).len() + 1;
    let ik = ia + a.len() + 1;
    let pkg = ptv(TokenView::Fixed(Token::Package), 0, 0);
    let semi = ptv(TokenView::Fixed(Token::Semicolon), 0, 8 + dl);
    let pn = dotted_tokens(p, 0, 8);
    let bs = import_blocks(qs, 0, i0);
    let at = ptv(word_view(a), 0, ia);
    let kt = ptv(word_view(k), 0, ik);
    if let LexOutcome::Tokens(ts) = spec_lex(s) {
        if let LexOutcome::Tokens(rr) = x {
            let tail = seq![at, kt] + rr;
            assert(ts =~= seq![pkg] + pn + seq![semi] + flat(bs) + tail);
            lemma_dotted_tokens(p, 0, 8, false);
            assert forall|j: int| 0 <= j < pn.len() implies !is_token(#[trigger] pn[j], Token::Semicolon) by {
                assert(word_or_dot(pn[j]));
            }
            lemma_import_blocks(qs, 0, i0);
            assert(tail[0] == at && tail[1] == kt);
            lemma_parse_file_header(pn, bs, tail, pkg, semi);
        }
    }
}

} // verus!
