use vstd::prelude::*;

verus! {

/// A value in a Clausewitz document: a bare atom or a braced block.
#[derive(Debug)]
pub enum ClausewitzValue {
    Atom(String),
    Block(Vec<ClausewitzNode>),
}

/// An entry of a block: `key = value` or a bare value.
#[derive(Debug)]
pub enum ClausewitzNode {
    Pair(String, ClausewitzValue),
    Value(ClausewitzValue),
}

/// Mathematical model of a value.
pub enum SValue {
    Atom(Seq<char>),
    Block(Seq<SNode>),
}

pub enum SNode {
    Pair(Seq<char>, SValue),
    Value(SValue),
}

pub open spec fn value_view(v: ClausewitzValue) -> SValue
    decreases v, 0int,
{
    match v {
        ClausewitzValue::Atom(s) => SValue::Atom(s@),
        ClausewitzValue::Block(nodes) => SValue::Block(nodes_view(nodes@)),
    }
}

pub open spec fn node_view(n: ClausewitzNode) -> SNode
    decreases n, 0int,
{
    match n {
        ClausewitzNode::Pair(k, v) => SNode::Pair(k@, value_view(v)),
        ClausewitzNode::Value(v) => SNode::Value(value_view(v)),
    }
}

pub open spec fn nodes_view(ns: Seq<ClausewitzNode>) -> Seq<SNode>
    decreases ns, 0int,
{
    if ns.len() == 0 {
        Seq::empty()
    } else {
        nodes_view(ns.drop_last()).push(node_view(ns.last()))
    }
}

/// The model of a node list is taken element by element.
pub proof fn lemma_nodes_view(ns: Seq<ClausewitzNode>)
    ensures
        nodes_view(ns).len() == ns.len(),
        forall|i: int| 0 <= i < ns.len() ==> #[trigger] nodes_view(ns)[i] == node_view(ns[i]),
    decreases ns.len(),
{
    if ns.len() > 0 {
        lemma_nodes_view(ns.drop_last());
    }
}

} // verus!

verus! {

// ── Tokens ──────────────────────────────────────────────────────────────

/// A lexical token of the Clausewitz text format.
#[derive(Debug)]
pub enum Token {
    LBrace,
    RBrace,
    Equals,
    Atom(String),
}

/// Mathematical model of a token.
pub enum SToken {
    LBrace,
    RBrace,
    Equals,
    Atom(Seq<char>),
}

pub open spec fn token_view(t: Token) -> SToken {
    match t {
        Token::LBrace => SToken::LBrace,
        Token::RBrace => SToken::RBrace,
        Token::Equals => SToken::Equals,
        Token::Atom(s) => SToken::Atom(s@),
    }
}

pub open spec fn tokens_view(ts: Seq<Token>) -> Seq<SToken> {
    ts.map_values(|t: Token| token_view(t))
}

/// Characters that end a bare (unquoted) atom.
pub open spec fn is_atom_stop(c: char) -> bool {
    crate::text::is_ws(c) || c == '{' || c == '}' || c == '=' || c == '#'
}

/// Index just past the end of a `#` comment whose text starts at `i`:
/// one past the first newline, or the end of the input.
pub open spec fn comment_end(cs: Seq<char>, i: int) -> int
    decreases cs.len() - i,
{
    if i >= cs.len() {
        cs.len() as int
    } else if cs[i] == '\n' {
        i + 1
    } else {
        comment_end(cs, i + 1)
    }
}

/// Index of the first atom-stopping character at or after `i`.
pub open spec fn bare_end(cs: Seq<char>, i: int) -> int
    decreases cs.len() - i,
{
    if i < cs.len() && !is_atom_stop(cs[i]) {
        bare_end(cs, i + 1)
    } else {
        i
    }
}

/// Text of a quoted atom whose body starts at `i` (just after the opening
/// quote): a backslash takes the next character literally, the closing
/// quote or the end of input ends it.
pub open spec fn quoted_text(cs: Seq<char>, i: int) -> Seq<char>
    decreases cs.len() - i,
{
    if i >= cs.len() || cs[i] == '"' {
        Seq::empty()
    } else if cs[i] == '\\' {
        if i + 1 < cs.len() {
            seq![cs[i + 1]] + quoted_text(cs, i + 2)
        } else {
            Seq::empty()
        }
    } else {
        seq![cs[i]] + quoted_text(cs, i + 1)
    }
}

/// Index just past a quoted atom whose body starts at `i`.
pub open spec fn quoted_end(cs: Seq<char>, i: int) -> int
    decreases cs.len() - i,
{
    if i >= cs.len() {
        cs.len() as int
    } else if cs[i] == '"' {
        i + 1
    } else if cs[i] == '\\' {
        if i + 1 < cs.len() {
            quoted_end(cs, i + 2)
        } else {
            cs.len() as int
        }
    } else {
        quoted_end(cs, i + 1)
    }
}

pub proof fn lemma_comment_end(cs: Seq<char>, i: int)
    requires
        0 <= i,
    ensures
        i <= comment_end(cs, i) || i > cs.len(),
        comment_end(cs, i) <= cs.len() || i > cs.len(),
    decreases cs.len() - i,
{
    if i < cs.len() && cs[i] != '\n' {
        lemma_comment_end(cs, i + 1);
    }
}

pub proof fn lemma_bare_end(cs: Seq<char>, i: int)
    requires
        0 <= i <= cs.len(),
    ensures
        i <= bare_end(cs, i) <= cs.len(),
        forall|k: int| i <= k < bare_end(cs, i) ==> !is_atom_stop(#[trigger] cs[k]),
    decreases cs.len() - i,
{
    if i < cs.len() && !is_atom_stop(cs[i]) {
        lemma_bare_end(cs, i + 1);
    }
}

pub proof fn lemma_quoted_end(cs: Seq<char>, i: int)
    requires
        0 <= i <= cs.len(),
    ensures
        i <= quoted_end(cs, i) <= cs.len(),
    decreases cs.len() - i,
{
    if i < cs.len() && cs[i] != '"' {
        if cs[i] == '\\' {
            if i + 1 < cs.len() {
                lemma_quoted_end(cs, i + 2);
            }
        } else {
            lemma_quoted_end(cs, i + 1);
        }
    }
}

/// The tokens of `cs` from index `i` on. Whitespace separates tokens, `#`
/// starts a comment that runs to the end of the line, `{`, `}` and `=` are
/// tokens of their own, `"` starts a quoted atom, and any other character
/// starts a bare atom that runs to the next whitespace, brace, `=` or `#`.
pub open spec fn tokens_from(cs: Seq<char>, i: int) -> Seq<SToken>
    decreases cs.len() - i,
{
    if i < 0 || i >= cs.len() {
        Seq::empty()
    } else {
        let c = cs[i];
        if crate::text::is_ws(c) {
            tokens_from(cs, i + 1)
        } else if c == '#' {
            proof {
                lemma_comment_end(cs, i + 1);
            }
            tokens_from(cs, comment_end(cs, i + 1))
        } else if c == '{' {
            seq![SToken::LBrace] + tokens_from(cs, i + 1)
        } else if c == '}' {
            seq![SToken::RBrace] + tokens_from(cs, i + 1)
        } else if c == '=' {
            seq![SToken::Equals] + tokens_from(cs, i + 1)
        } else if c == '"' {
            proof {
                lemma_quoted_end(cs, i + 1);
            }
            seq![SToken::Atom(quoted_text(cs, i + 1))] + tokens_from(cs, quoted_end(cs, i + 1))
        } else {
            proof {
                lemma_bare_end(cs, i + 1);
            }
            seq![SToken::Atom(cs.subrange(i, bare_end(cs, i + 1)))] + tokens_from(
                cs,
                bare_end(cs, i + 1),
            )
        }
    }
}

/// The token sequence of a whole text.
pub open spec fn spec_tokenize(cs: Seq<char>) -> Seq<SToken> {
    tokens_from(cs, 0)
}

fn skip_comment(cs: &[char], i: usize) -> (r: usize)
    requires
        i <= cs@.len(),
    ensures
        r == comment_end(cs@, i as int),
{
    let mut j: usize = i;
    while j < cs.len()
        invariant
            i <= j <= cs@.len(),
            comment_end(cs@, i as int) == comment_end(cs@, j as int),
        decreases cs@.len() - j,
    {
        if cs[j] == '\n' {
            return j + 1;
        }
        j = j + 1;
    }
    j
}

fn char_is_atom_stop(c: char) -> (r: bool)
    ensures
        r == is_atom_stop(c),
{
    crate::text::char_is_ws(c) || c == '{' || c == '}' || c == '=' || c == '#'
}

fn scan_bare(cs: &[char], i: usize) -> (r: usize)
    requires
        i <= cs@.len(),
    ensures
        r == bare_end(cs@, i as int),
{
    let mut j: usize = i;
    while j < cs.len() && !char_is_atom_stop(cs[j])
        invariant
            i <= j <= cs@.len(),
            bare_end(cs@, i as int) == bare_end(cs@, j as int),
        decreases cs@.len() - j,
    {
        j = j + 1;
    }
    j
}

fn scan_quoted(cs: &[char], i: usize) -> (r: (String, usize))
    requires
        i <= cs@.len(),
    ensures
        r.0@ == quoted_text(cs@, i as int),
        r.1 == quoted_end(cs@, i as int),
{
    let mut acc: Vec<char> = Vec::new();
    let mut j: usize = i;
    while j < cs.len()
        invariant
            i <= j <= cs@.len(),
            acc@ + quoted_text(cs@, j as int) == quoted_text(cs@, i as int),
            quoted_end(cs@, j as int) == quoted_end(cs@, i as int),
        decreases cs@.len() - j,
    {
        let c = cs[j];
        if c == '"' {
            proof {
                assert(acc@ + quoted_text(cs@, j as int) =~= acc@);
            }
            return (crate::text::string_of(acc.as_slice()), j + 1);
        } else if c == '\\' {
            if j + 1 < cs.len() {
                let ghost old_acc = acc@;
                acc.push(cs[j + 1]);
                proof {
                    assert(acc@ + quoted_text(cs@, j + 2) =~= old_acc + quoted_text(
                        cs@,
                        j as int,
                    ));
                }
                j = j + 2;
            } else {
                proof {
                    assert(acc@ + quoted_text(cs@, j as int) =~= acc@);
                }
                return (crate::text::string_of(acc.as_slice()), cs.len());
            }
        } else {
            let ghost old_acc = acc@;
            acc.push(c);
            proof {
                assert(acc@ + quoted_text(cs@, j + 1) =~= old_acc + quoted_text(cs@, j as int));
            }
            j = j + 1;
        }
    }
    proof {
        assert(acc@ + quoted_text(cs@, j as int) =~= acc@);
    }
    (crate::text::string_of(acc.as_slice()), j)
}

/// Splits Clausewitz text into tokens.
pub fn tokenize(text: &str) -> (r: Vec<Token>)
    ensures
        tokens_view(r@) == spec_tokenize(text@),
{
    let cs = crate::text::chars_of(text);
    let mut tokens: Vec<Token> = Vec::new();
    let mut pos: usize = 0;
    while pos < cs.len()
        invariant
            pos <= cs@.len(),
            cs@ == text@,
            tokens_view(tokens@) + tokens_from(cs@, pos as int) == tokens_from(cs@, 0),
        decreases cs@.len() - pos,
    {
        let c = cs[pos];
        let ghost old_tokens = tokens@;
        if crate::text::char_is_ws(c) {
            pos = pos + 1;
        } else if c == '#' {
            proof {
                lemma_comment_end(cs@, pos + 1);
            }
            pos = skip_comment(cs.as_slice(), pos + 1);
        } else if c == '{' || c == '}' || c == '=' {
            let t = if c == '{' {
                Token::LBrace
            } else if c == '}' {
                Token::RBrace
            } else {
                Token::Equals
            };
            tokens.push(t);
            proof {
                assert(tokens_view(tokens@) =~= tokens_view(old_tokens).push(token_view(t)));
                assert(tokens_view(tokens@) + tokens_from(cs@, pos + 1) =~= tokens_view(
                    old_tokens,
                ) + tokens_from(cs@, pos as int));
            }
            pos = pos + 1;
        } else if c == '"' {
            proof {
                lemma_quoted_end(cs@, pos + 1);
            }
            let (s, next) = scan_quoted(cs.as_slice(), pos + 1);
            tokens.push(Token::Atom(s));
            proof {
                assert(tokens_view(tokens@) =~= tokens_view(old_tokens).push(
                    SToken::Atom(quoted_text(cs@, pos + 1)),
                ));
                assert(tokens_view(tokens@) + tokens_from(cs@, next as int) =~= tokens_view(
                    old_tokens,
                ) + tokens_from(cs@, pos as int));
            }
            pos = next;
        } else {
            proof {
                lemma_bare_end(cs@, pos + 1);
            }
            let end = scan_bare(cs.as_slice(), pos + 1);
            let piece = crate::text::slice_chars(cs.as_slice(), pos, end);
            let s = crate::text::string_of(piece.as_slice());
            tokens.push(Token::Atom(s));
            proof {
                assert(tokens_view(tokens@) =~= tokens_view(old_tokens).push(
                    SToken::Atom(cs@.subrange(pos as int, end as int)),
                ));
                assert(tokens_view(tokens@) + tokens_from(cs@, end as int) =~= tokens_view(
                    old_tokens,
                ) + tokens_from(cs@, pos as int));
            }
            pos = end;
        }
    }
    proof {
        assert(tokens_view(tokens@) + tokens_from(cs@, pos as int) =~= tokens_view(tokens@));
    }
    tokens
}

} // verus!

verus! {

// ── Parser ──────────────────────────────────────────────────────────────

/// Why a Clausewitz text failed to parse.
#[derive(Debug, Clone, Copy, PartialEq, Eq, Structural)]
pub enum ParseError {
    /// A `}` with no open block.
    UnexpectedClosingBrace,
    /// A block still open at the end of input.
    MissingClosingBrace,
    /// An `=` where a value was expected.
    UnexpectedEquals,
    /// The input ended where a value was expected.
    UnexpectedEnd,
    /// Tokens left over after the top-level entries.
    TrailingTokens,
}

/// Parses one value starting at token `pos`: an atom, or a braced block.
pub open spec fn parse_value_spec(ts: Seq<SToken>, pos: int) -> Result<(SValue, int), ParseError>
    decreases ts.len() - pos, 0int,
{
    if pos < 0 || pos >= ts.len() {
        Err(ParseError::UnexpectedEnd)
    } else {
        match ts[pos] {
            SToken::Atom(s) => Ok((SValue::Atom(s), pos + 1)),
            SToken::LBrace => match parse_nodes_spec(ts, pos + 1, true) {
                Ok((ns, next)) => Ok((SValue::Block(ns), next)),
                Err(e) => Err(e),
            },
            SToken::RBrace => Err(ParseError::UnexpectedClosingBrace),
            SToken::Equals => Err(ParseError::UnexpectedEquals),
        }
    }
}

/// Parses the entries of a block (or of the whole document) starting at token
/// `pos`. With `stop` a `}` closes the block and is consumed; without it a
/// `}` is an error and the entries run to the end of input.
pub open spec fn parse_nodes_spec(ts: Seq<SToken>, pos: int, stop: bool) -> Result<
    (Seq<SNode>, int),
    ParseError,
>
    decreases ts.len() - pos, 1int,
{
    if pos < 0 || pos >= ts.len() {
        if stop {
            Err(ParseError::MissingClosingBrace)
        } else {
            Ok((Seq::empty(), pos))
        }
    } else {
        let first: Result<(SNode, int), ParseError> = match ts[pos] {
            SToken::RBrace => Err(ParseError::UnexpectedClosingBrace),
            SToken::Atom(key) => if pos + 1 < ts.len() && ts[pos + 1] is Equals {
                match parse_value_spec(ts, pos + 2) {
                    Ok((v, next)) => Ok((SNode::Pair(key, v), next)),
                    Err(e) => Err(e),
                }
            } else {
                match parse_value_spec(ts, pos) {
                    Ok((v, next)) => Ok((SNode::Value(v), next)),
                    Err(e) => Err(e),
                }
            },
            _ => match parse_value_spec(ts, pos) {
                Ok((v, next)) => Ok((SNode::Value(v), next)),
                Err(e) => Err(e),
            },
        };
        if ts[pos] is RBrace && stop {
            Ok((Seq::empty(), pos + 1))
        } else {
            match first {
                Err(e) => Err(e),
                Ok((node, next)) => if pos < next <= ts.len() {
                    match parse_nodes_spec(ts, next, stop) {
                        Ok((rest, end)) => Ok((seq![node] + rest, end)),
                        Err(e) => Err(e),
                    }
                } else {
                    Err(ParseError::UnexpectedEnd)
                },
            }
        }
    }
}

/// The document a Clausewitz text denotes: its top-level entries as one block.
pub open spec fn spec_parse_clausewitz(cs: Seq<char>) -> Result<SValue, ParseError> {
    let ts = spec_tokenize(cs);
    match parse_nodes_spec(ts, 0, false) {
        Ok((ns, consumed)) => if consumed == ts.len() {
            Ok(SValue::Block(ns))
        } else {
            Err(ParseError::TrailingTokens)
        },
        Err(e) => Err(e),
    }
}

/// Parses one value at `pos`.
pub fn parse_value(tokens: &[Token], pos: usize) -> (r: Result<(ClausewitzValue, usize), ParseError>)
    ensures
        match r {
            Ok((v, next)) => parse_value_spec(tokens_view(tokens@), pos as int) == Ok::<
                (SValue, int),
                ParseError,
            >((value_view(v), next as int)) && pos < next <= tokens@.len(),
            Err(e) => parse_value_spec(tokens_view(tokens@), pos as int) == Err::<
                (SValue, int),
                ParseError,
            >(e),
        },
    decreases tokens@.len() - pos, 0int,
{
    if pos >= tokens.len() {
        return Err(ParseError::UnexpectedEnd);
    }
    match &tokens[pos] {
        Token::Atom(s) => Ok((ClausewitzValue::Atom(s.clone()), pos + 1)),
        Token::LBrace => {
            match parse_nodes(tokens, pos + 1, true) {
                Ok((nodes, next)) => Ok((ClausewitzValue::Block(nodes), next)),
                Err(e) => Err(e),
            }
        },
        Token::RBrace => Err(ParseError::UnexpectedClosingBrace),
        Token::Equals => Err(ParseError::UnexpectedEquals),
    }
}

/// Parses the entries of a block starting at `pos` (see [`parse_nodes_spec`]).
pub fn parse_nodes(tokens: &[Token], pos: usize, stop_on_rbrace: bool) -> (r: Result<
    (Vec<ClausewitzNode>, usize),
    ParseError,
>)
    requires
        pos <= tokens@.len(),
    ensures
        match r {
            Ok((ns, next)) => parse_nodes_spec(tokens_view(tokens@), pos as int, stop_on_rbrace)
                == Ok::<(Seq<SNode>, int), ParseError>((nodes_view(ns@), next as int)) && pos
                <= next <= tokens@.len(),
            Err(e) => parse_nodes_spec(tokens_view(tokens@), pos as int, stop_on_rbrace) == Err::<
                (Seq<SNode>, int),
                ParseError,
            >(e),
        },
    decreases tokens@.len() - pos, 1int,
{
    let ghost ts = tokens_view(tokens@);
    let mut nodes: Vec<ClausewitzNode> = Vec::new();
    let mut p: usize = pos;
    while p < tokens.len()
        invariant
            pos <= p <= tokens@.len(),
            ts == tokens_view(tokens@),
            match parse_nodes_spec(ts, p as int, stop_on_rbrace) {
                Ok((rest, end)) => parse_nodes_spec(ts, pos as int, stop_on_rbrace) == Ok::<
                    (Seq<SNode>, int),
                    ParseError,
                >((nodes_view(nodes@) + rest, end)),
                Err(e) => parse_nodes_spec(ts, pos as int, stop_on_rbrace) == Err::<
                    (Seq<SNode>, int),
                    ParseError,
                >(e),
            },
        decreases tokens@.len() - p,
    {
        let ghost old_nodes = nodes@;
        let node;
        let next;
        match &tokens[p] {
            Token::RBrace => {
                if stop_on_rbrace {
                    proof {
                        assert(nodes_view(nodes@) + Seq::<SNode>::empty() =~= nodes_view(nodes@));
                    }
                    return Ok((nodes, p + 1));
                } else {
                    return Err(ParseError::UnexpectedClosingBrace);
                }
            },
            Token::Atom(key) => {
                let is_pair = p + 1 < tokens.len() && matches!(tokens[p + 1], Token::Equals);
                if is_pair {
                    match parse_value(tokens, p + 2) {
                        Ok((v, n)) => {
                            node = ClausewitzNode::Pair(key.clone(), v);
                            next = n;
                        },
                        Err(e) => return Err(e),
                    }
                } else {
                    match parse_value(tokens, p) {
                        Ok((v, n)) => {
                            node = ClausewitzNode::Value(v);
                            next = n;
                        },
                        Err(e) => return Err(e),
                    }
                }
            },
            _ => {
                match parse_value(tokens, p) {
                    Ok((v, n)) => {
                        node = ClausewitzNode::Value(v);
                        next = n;
                    },
                    Err(e) => return Err(e),
                }
            },
        }
        nodes.push(node);
        proof {
            lemma_nodes_view(nodes@);
            lemma_nodes_view(old_nodes);
            assert(nodes_view(nodes@) =~= nodes_view(old_nodes).push(node_view(node)));
            match parse_nodes_spec(ts, next as int, stop_on_rbrace) {
                Ok((rest, end)) => {
                    assert(nodes_view(nodes@) + rest =~= nodes_view(old_nodes) + (seq![
                        node_view(node),
                    ] + rest));
                },
                Err(e) => {},
            }
        }
        p = next;
    }
    if stop_on_rbrace {
        return Err(ParseError::MissingClosingBrace);
    }
    proof {
        assert(nodes_view(nodes@) + Seq::<SNode>::empty() =~= nodes_view(nodes@));
    }
    Ok((nodes, p))
}

/// Parses a whole Clausewitz document into a top-level block.
pub fn parse_clausewitz(text: &str) -> (r: Result<ClausewitzValue, ParseError>)
    ensures
        match r {
            Ok(v) => spec_parse_clausewitz(text@) == Ok::<SValue, ParseError>(value_view(v)),
            Err(e) => spec_parse_clausewitz(text@) == Err::<SValue, ParseError>(e),
        },
{
    let tokens = tokenize(text);
    let (nodes, consumed) = parse_nodes(tokens.as_slice(), 0, false)?;
    if consumed != tokens.len() {
        return Err(ParseError::TrailingTokens);
    }
    Ok(ClausewitzValue::Block(nodes))
}

} // verus!

verus! {

// ── Lookups ─────────────────────────────────────────────────────────────

pub open spec fn opt_view(o: Option<&ClausewitzValue>) -> Option<SValue> {
    match o {
        Some(v) => Some(value_view(*v)),
        None => None,
    }
}

/// The value of a node, whether keyed or bare.
pub open spec fn node_value(n: SNode) -> SValue {
    match n {
        SNode::Pair(_, v) => v,
        SNode::Value(v) => v,
    }
}

/// The value of the first `key = value` entry among `ns`.
pub open spec fn pair_in(ns: Seq<SNode>, key: Seq<char>) -> Option<SValue>
    decreases ns.len(),
{
    if ns.len() == 0 {
        None
    } else {
        match ns[0] {
            SNode::Pair(k, v) => if k == key {
                Some(v)
            } else {
                pair_in(ns.drop_first(), key)
            },
            SNode::Value(_) => pair_in(ns.drop_first(), key),
        }
    }
}

/// The value of the first `key = value` entry directly inside `v`.
pub open spec fn spec_direct_entry(v: SValue, key: Seq<char>) -> Option<SValue> {
    match v {
        SValue::Atom(_) => None,
        SValue::Block(ns) => pair_in(ns, key),
    }
}

/// Depth-first search for `key`: a direct entry of `v` wins; otherwise the
/// children are searched in order.
pub open spec fn spec_find_value(v: SValue, key: Seq<char>) -> Option<SValue>
    decreases v,
{
    match v {
        SValue::Atom(_) => None,
        SValue::Block(ns) => match pair_in(ns, key) {
            Some(found) => Some(found),
            None => find_in_children(ns, key),
        },
    }
}

pub open spec fn find_in_children(ns: Seq<SNode>, key: Seq<char>) -> Option<SValue>
    decreases ns,
{
    if ns.len() == 0 {
        None
    } else {
        match spec_find_value(node_value(ns[0]), key) {
            Some(found) => Some(found),
            None => find_in_children(ns.drop_first(), key),
        }
    }
}

/// A node list seen from index `i` on.
pub proof fn lemma_nodes_view_skip(ns: Seq<ClausewitzNode>, i: int)
    requires
        0 <= i < ns.len(),
    ensures
        nodes_view(ns).skip(i).len() > 0,
        nodes_view(ns).skip(i)[0] == node_view(ns[i]),
        nodes_view(ns).skip(i).drop_first() == nodes_view(ns).skip(i + 1),
{
    lemma_nodes_view(ns);
    assert(nodes_view(ns).skip(i).drop_first() =~= nodes_view(ns).skip(i + 1));
}

/// The entries of a block, or nothing for an atom.
pub open spec fn entries(v: SValue) -> Seq<SNode> {
    match v {
        SValue::Atom(_) => Seq::empty(),
        SValue::Block(ns) => ns,
    }
}

/// Looks up the first `key = value` entry among `nodes`.
pub fn pair_in_nodes<'a>(nodes: &'a Vec<ClausewitzNode>, key: &str) -> (r: Option<&'a ClausewitzValue>)
    ensures
        opt_view(r) == pair_in(nodes_view(nodes@), key@),
{
    let ghost ns = nodes_view(nodes@);
    proof {
        lemma_nodes_view(nodes@);
        assert(ns.skip(0) =~= ns);
    }
    let mut i: usize = 0;
    while i < nodes.len()
        invariant
            i <= nodes@.len(),
            ns == nodes_view(nodes@),
            ns.len() == nodes@.len(),
            pair_in(ns, key@) == pair_in(ns.skip(i as int), key@),
        decreases nodes@.len() - i,
    {
        proof {
            lemma_nodes_view_skip(nodes@, i as int);
        }
        match &nodes[i] {
            ClausewitzNode::Pair(k, v) => {
                if crate::text::str_eq(k.as_str(), key) {
                    return Some(v);
                }
            },
            ClausewitzNode::Value(_) => {},
        }
        i = i + 1;
    }
    proof {
        assert(ns.skip(i as int) =~= Seq::<SNode>::empty());
    }
    None
}

/// The value of the first `key = value` entry directly inside `value`.
pub fn direct_entry<'a>(value: &'a ClausewitzValue, key: &str) -> (r: Option<&'a ClausewitzValue>)
    ensures
        opt_view(r) == spec_direct_entry(value_view(*value), key@),
{
    match value {
        ClausewitzValue::Block(nodes) => pair_in_nodes(nodes, key),
        ClausewitzValue::Atom(_) => None,
    }
}

/// Same lookup as [`direct_entry`].
pub fn direct_value_by_key<'a>(value: &'a ClausewitzValue, key: &str) -> (r: Option<
    &'a ClausewitzValue,
>)
    ensures
        opt_view(r) == spec_direct_entry(value_view(*value), key@),
{
    direct_entry(value, key)
}

/// Lookup of a top-level entry of the document.
pub fn top_level_value_by_key<'a>(value: &'a ClausewitzValue, key: &str) -> (r: Option<
    &'a ClausewitzValue,
>)
    ensures
        opt_view(r) == spec_direct_entry(value_view(*value), key@),
{
    direct_value_by_key(value, key)
}

/// Depth-first search for the first entry named `key` (see [`spec_find_value`]).
pub fn find_value_by_key<'a>(value: &'a ClausewitzValue, key: &str) -> (r: Option<
    &'a ClausewitzValue,
>)
    ensures
        opt_view(r) == spec_find_value(value_view(*value), key@),
    decreases value,
{
    match value {
        ClausewitzValue::Atom(_) => None,
        ClausewitzValue::Block(nodes) => {
            if let Some(found) = pair_in_nodes(nodes, key) {
                return Some(found);
            }
            let ghost ns = nodes_view(nodes@);
            proof {
                lemma_nodes_view(nodes@);
                assert(ns.skip(0) =~= ns);
            }
            let mut i: usize = 0;
            while i < nodes.len()
                invariant
                    i <= nodes@.len(),
                    ns == nodes_view(nodes@),
                    ns.len() == nodes@.len(),
                    find_in_children(ns, key@) == find_in_children(ns.skip(i as int), key@),
                    *value == ClausewitzValue::Block(*nodes),
                    pair_in(ns, key@) is None,
                decreases nodes@.len() - i,
            {
                proof {
                    lemma_nodes_view_skip(nodes@, i as int);
                }
                let child = match &nodes[i] {
                    ClausewitzNode::Pair(_, c) => c,
                    ClausewitzNode::Value(c) => c,
                };
                proof {
                    assert(decreases_to!(ClausewitzValue::Block(*nodes) => *nodes));
                    assert(decreases_to!(*nodes => nodes@));
                    assert(decreases_to!(nodes@ => nodes@[i as int]));
                    assert(decreases_to!(nodes@[i as int] => *child));
                    assert(decreases_to!(*value => *child));
                }
                if let Some(found) = find_value_by_key(child, key) {
                    return Some(found);
                }
                i = i + 1;
            }
            proof {
                assert(ns.skip(i as int) =~= Seq::<SNode>::empty());
            }
            None
        },
    }
}

} // verus!

verus! {

pub open spec fn opt_str_view(o: Option<String>) -> Option<Seq<char>> {
    match o {
        Some(s) => Some(s@),
        None => None,
    }
}

pub open spec fn strs_view(v: Seq<String>) -> Seq<Seq<char>> {
    v.map_values(|s: String| s@)
}

pub open spec fn path_view(p: Seq<&str>) -> Seq<Seq<char>> {
    p.map_values(|s: &str| s@)
}

/// The text of a non-empty atom.
pub open spec fn spec_atom_string(v: SValue) -> Option<Seq<char>> {
    match v {
        SValue::Atom(s) => if s.len() > 0 {
            Some(s)
        } else {
            None
        },
        SValue::Block(_) => None,
    }
}

/// The truth value an atom spells (`yes`/`true`/`1` or `no`/`false`/`0`).
pub open spec fn spec_bool_from_value(v: SValue) -> Option<bool> {
    match v {
        SValue::Atom(s) => if s == "yes"@ || s == "true"@ || s == "1"@ {
            Some(true)
        } else if s == "no"@ || s == "false"@ || s == "0"@ {
            Some(false)
        } else {
            None
        },
        SValue::Block(_) => None,
    }
}

/// The truth words of a save: `yes`, `true` and `1` read as true, `no`,
/// `false` and `0` as false, and nothing else (no other atom, no block)
/// reads as a truth value.
pub proof fn lemma_truth_words(s: Seq<char>, ns: Seq<SNode>)
    ensures
        spec_bool_from_value(SValue::Atom(s)) == Some(true) <==> (s == "yes"@ || s == "true"@ || s == "1"@),
        spec_bool_from_value(SValue::Atom(s)) == Some(false) <==> (s == "no"@ || s == "false"@ || s == "0"@),
        spec_bool_from_value(SValue::Block(ns)) is None,
{
    reveal_strlit("yes");
    reveal_strlit("true");
    reveal_strlit("1");
    reveal_strlit("no");
    reveal_strlit("false");
    reveal_strlit("0");
    assert("no"@.len() != "yes"@.len());
    assert("no"@.len() != "true"@.len());
    assert("no"@.len() != "1"@.len());
    assert("false"@.len() != "yes"@.len());
    assert("false"@.len() != "true"@.len());
    assert("false"@.len() != "1"@.len());
    assert("0"@.len() != "yes"@.len());
    assert("0"@.len() != "true"@.len());
    assert("0"@[0] != "1"@[0]);
}

/// The non-empty atoms of `v` in document order (depth first).
pub open spec fn atoms_of(v: SValue) -> Seq<Seq<char>>
    decreases v,
{
    match v {
        SValue::Atom(s) => if s.len() > 0 {
            seq![s]
        } else {
            Seq::empty()
        },
        SValue::Block(ns) => atoms_of_nodes(ns),
    }
}

pub open spec fn atoms_of_nodes(ns: Seq<SNode>) -> Seq<Seq<char>>
    decreases ns,
{
    if ns.len() == 0 {
        Seq::empty()
    } else {
        atoms_of(node_value(ns[0])) + atoms_of_nodes(ns.drop_first())
    }
}

/// `s` with every element after its first occurrence removed.
pub open spec fn dedupe<T>(s: Seq<T>) -> Seq<T>
    decreases s.len(),
{
    if s.len() == 0 {
        Seq::empty()
    } else {
        let d = dedupe(s.drop_last());
        if d.contains(s.last()) {
            d
        } else {
            d.push(s.last())
        }
    }
}

/// Removing repeats leaves no element twice and loses none: the result
/// holds exactly the elements of `s`.
pub proof fn lemma_dedupe_distinct<T>(s: Seq<T>)
    ensures
        dedupe(s).no_duplicates(),
        forall|x: T| dedupe(s).contains(x) <==> s.contains(x),
    decreases s.len(),
{
    if s.len() > 0 {
        let e = s.drop_last();
        let y = s.last();
        let d = dedupe(e);
        lemma_dedupe_distinct(e);
        assert(s =~= e.push(y));
        assert forall|x: T| s.contains(x) <==> (e.contains(x) || x == y) by {
            if s.contains(x) && x != y {
                let i = choose|i: int| 0 <= i < s.len() && s[i] == x;
                assert(e[i] == x);
            }
            if e.contains(x) {
                let i = choose|i: int| 0 <= i < e.len() && e[i] == x;
                assert(s[i] == x);
            }
            if x == y {
                assert(s[s.len() - 1] == x);
            }
        }
        if !d.contains(y) {
            let n = d.push(y);
            assert forall|x: T| n.contains(x) <==> (d.contains(x) || x == y) by {
                if n.contains(x) && x != y {
                    let i = choose|i: int| 0 <= i < n.len() && n[i] == x;
                    assert(d[i] == x);
                }
                if d.contains(x) {
                    let i = choose|i: int| 0 <= i < d.len() && d[i] == x;
                    assert(n[i] == x);
                }
                if x == y {
                    assert(n[d.len() as int] == x);
                }
            }
            assert forall|i: int, j: int| 0 <= i < n.len() && 0 <= j < n.len() && i != j implies n[i] != n[j] by {
                if i == d.len() {
                    assert(d[j] == n[j]);
                } else if j == d.len() {
                    assert(d[i] == n[i]);
                }
            }
        }
    }
}

/// The distinct non-empty atoms of `v`, in order of first appearance.
pub open spec fn spec_collect_atoms(v: SValue) -> Seq<Seq<char>> {
    dedupe(atoms_of(v))
}

/// Follows `path` one direct entry at a time.
pub open spec fn spec_query_path(v: SValue, path: Seq<Seq<char>>) -> Option<SValue>
    decreases path.len(),
{
    if path.len() == 0 {
        Some(v)
    } else {
        match spec_direct_entry(v, path[0]) {
            Some(c) => spec_query_path(c, path.drop_first()),
            None => None,
        }
    }
}

/// The number of entries of a block; zero for an atom.
pub open spec fn spec_count_entries(v: SValue) -> nat {
    match v {
        SValue::Atom(_) => 0,
        SValue::Block(ns) => ns.len(),
    }
}

/// The text of an atom, if it is a non-empty atom.
pub fn atom_string(value: &ClausewitzValue) -> (r: Option<String>)
    ensures
        opt_str_view(r) == spec_atom_string(value_view(*value)),
{
    match value {
        ClausewitzValue::Atom(atom) => {
            if !atom.as_str().is_empty() {
                Some(atom.clone())
            } else {
                None
            }
        },
        _ => None,
    }
}

} // verus!

verus! {

/// The truth value an atom spells, if any.
pub fn bool_from_value(value: &ClausewitzValue) -> (r: Option<bool>)
    ensures
        r == spec_bool_from_value(value_view(*value)),
{
    match value {
        ClausewitzValue::Atom(atom) => {
            let a = atom.as_str();
            if crate::text::str_eq(a, "yes") || crate::text::str_eq(a, "true")
                || crate::text::str_eq(a, "1") {
                Some(true)
            } else if crate::text::str_eq(a, "no") || crate::text::str_eq(a, "false")
                || crate::text::str_eq(a, "0") {
                Some(false)
            } else {
                None
            }
        },
        _ => None,
    }
}

/// The non-empty atom found first by [`find_value_by_key`].
pub fn first_atom(value: &ClausewitzValue, key: &str) -> (r: Option<String>)
    ensures
        opt_str_view(r) == match spec_find_value(value_view(*value), key@) {
            Some(v) => spec_atom_string(v),
            None => None,
        },
{
    match find_value_by_key(value, key) {
        Some(v) => atom_string(v),
        None => None,
    }
}

/// The truth value found first by [`find_value_by_key`].
pub fn first_bool(value: &ClausewitzValue, key: &str) -> (r: Option<bool>)
    ensures
        r == match spec_find_value(value_view(*value), key@) {
            Some(v) => spec_bool_from_value(v),
            None => None,
        },
{
    match find_value_by_key(value, key) {
        Some(v) => bool_from_value(v),
        None => None,
    }
}

/// The non-empty atoms of `value`, depth first, duplicates kept.
pub fn atoms_in(value: &ClausewitzValue) -> (r: Vec<String>)
    ensures
        strs_view(r@) == atoms_of(value_view(*value)),
    decreases value,
{
    match value {
        ClausewitzValue::Atom(atom) => {
            let mut out: Vec<String> = Vec::new();
            if !atom.as_str().is_empty() {
                out.push(atom.clone());
                proof {
                    assert(strs_view(out@) =~= seq![atom@]);
                }
            } else {
                proof {
                    assert(strs_view(out@) =~= Seq::<Seq<char>>::empty());
                }
            }
            out
        },
        ClausewitzValue::Block(nodes) => {
            let mut out: Vec<String> = Vec::new();
            let ghost ns = nodes_view(nodes@);
            proof {
                lemma_nodes_view(nodes@);
                assert(ns.skip(0) =~= ns);
                assert(strs_view(out@) =~= Seq::<Seq<char>>::empty());
            }
            let mut i: usize = 0;
            while i < nodes.len()
                invariant
                    i <= nodes@.len(),
                    ns == nodes_view(nodes@),
                    ns.len() == nodes@.len(),
                    *value == ClausewitzValue::Block(*nodes),
                    atoms_of_nodes(ns) == strs_view(out@) + atoms_of_nodes(ns.skip(i as int)),
                decreases nodes@.len() - i,
            {
                proof {
                    lemma_nodes_view_skip(nodes@, i as int);
                }
                let child = match &nodes[i] {
                    ClausewitzNode::Pair(_, c) => c,
                    ClausewitzNode::Value(c) => c,
                };
                proof {
                    assert(value->Block_0 == *nodes);
                    assert(decreases_to!(*value => value->Block_0));
                    assert(decreases_to!(*nodes => nodes@));
                    assert(decreases_to!(nodes@ => nodes@[i as int]));
                    assert(decreases_to!(nodes@[i as int] => *child));
                    assert(decreases_to!(*value => *child));
                }
                let sub = atoms_in(child);
                let ghost mid = strs_view(out@);
                append_strings(&mut out, &sub);
                proof {
                    let rest = ns.skip(i as int);
                    assert(atoms_of_nodes(rest) == atoms_of(value_view(*child)) + atoms_of_nodes(
                        ns.skip(i + 1),
                    ));
                    assert(strs_view(out@) + atoms_of_nodes(ns.skip(i + 1)) =~= mid
                        + atoms_of_nodes(rest));
                }
                i = i + 1;
            }
            proof {
                assert(ns.skip(i as int) =~= Seq::<SNode>::empty());
                assert(strs_view(out@) + Seq::<Seq<char>>::empty() =~= strs_view(out@));
            }
            out
        },
    }
}

/// Appends copies of `more` to `out`.
pub fn append_strings(out: &mut Vec<String>, more: &Vec<String>)
    ensures
        strs_view(final(out)@) == strs_view(old(out)@) + strs_view(more@),
{
    let ghost start = strs_view(out@);
    let mut i: usize = 0;
    while i < more.len()
        invariant
            i <= more@.len(),
            strs_view(out@) == start + strs_view(more@).take(i as int),
        decreases more@.len() - i,
    {
        let ghost before = out@;
        out.push(more[i].clone());
        proof {
            assert(strs_view(more@).take(i + 1) =~= strs_view(more@).take(i as int).push(
                more@[i as int]@,
            ));
            assert(strs_view(out@) =~= strs_view(before).push(more@[i as int]@));
            assert(strs_view(out@) =~= start + strs_view(more@).take(i + 1));
        }
        i = i + 1;
    }
    proof {
        assert(strs_view(more@).take(i as int) =~= strs_view(more@));
    }
}

/// Appends the non-empty atoms of `value` to `atoms`, depth first.
pub fn collect_atoms_into(value: &ClausewitzValue, atoms: &mut Vec<String>)
    ensures
        strs_view(final(atoms)@) == strs_view(old(atoms)@) + atoms_of(value_view(*value)),
{
    let found = atoms_in(value);
    append_strings(atoms, &found);
}

/// Keeps the first occurrence of each string, in order.
pub fn dedupe_preserve_order(values: Vec<String>) -> (r: Vec<String>)
    ensures
        strs_view(r@) == dedupe(strs_view(values@)),
{
    let mut out: Vec<String> = Vec::new();
    let mut i: usize = 0;
    let ghost vs = strs_view(values@);
    proof {
        assert(vs.take(0) =~= Seq::<Seq<char>>::empty());
    }
    while i < values.len()
        invariant
            i <= values@.len(),
            vs == strs_view(values@),
            strs_view(out@) == dedupe(vs.take(i as int)),
        decreases values@.len() - i,
    {
        let v = &values[i];
        let mut found = false;
        let mut j: usize = 0;
        while j < out.len()
            invariant
                j <= out@.len(),
                found <==> exists|k: int| 0 <= k < j && out@[k]@ == v@,
            decreases out@.len() - j,
        {
            if out[j] == *v {
                found = true;
            }
            j = j + 1;
        }
        let ghost before = strs_view(out@);
        proof {
            assert(vs.take(i + 1).drop_last() =~= vs.take(i as int));
            assert(vs.take(i + 1).last() == v@);
            if found {
                let k = choose|k: int| 0 <= k < j && out@[k]@ == v@;
                assert(before[k] == v@);
            } else {
                assert forall|k: int| 0 <= k < before.len() implies before[k] != v@ by {
                    assert(before[k] == out@[k]@);
                }
            }
        }
        if !found {
            out.push(v.clone());
            proof {
                assert(strs_view(out@) =~= before.push(v@));
            }
        }
        i = i + 1;
    }
    proof {
        assert(vs.take(i as int) =~= vs);
    }
    out
}

/// The distinct non-empty atoms of `value`, in order of first appearance.
pub fn collect_atoms(value: &ClausewitzValue) -> (r: Vec<String>)
    ensures
        strs_view(r@) == spec_collect_atoms(value_view(*value)),
{
    let mut atoms: Vec<String> = Vec::new();
    collect_atoms_into(value, &mut atoms);
    proof {
        assert(strs_view(Seq::<String>::empty()) =~= Seq::<Seq<char>>::empty());
        assert(Seq::<Seq<char>>::empty() + atoms_of(value_view(*value)) =~= atoms_of(
            value_view(*value),
        ));
    }
    dedupe_preserve_order(atoms)
}

/// Follows `path` through direct entries; `None` as soon as a step is missing.
pub fn query_path<'a>(value: &'a ClausewitzValue, path: &[&str]) -> (r: Option<
    &'a ClausewitzValue,
>)
    ensures
        opt_view(r) == spec_query_path(value_view(*value), path_view(path@)),
{
    let ghost pv = path_view(path@);
    let mut current = value;
    let mut i: usize = 0;
    proof {
        assert(pv.skip(0) =~= pv);
    }
    while i < path.len()
        invariant
            i <= path@.len(),
            pv == path_view(path@),
            pv.len() == path@.len(),
            spec_query_path(value_view(*value), pv) == spec_query_path(
                value_view(*current),
                pv.skip(i as int),
            ),
        decreases path@.len() - i,
    {
        proof {
            assert(pv.skip(i as int)[0] == path@[i as int]@);
            assert(pv.skip(i as int).drop_first() =~= pv.skip(i + 1));
        }
        match direct_entry(current, path[i]) {
            Some(next) => {
                current = next;
            },
            None => return None,
        }
        i = i + 1;
    }
    proof {
        assert(pv.skip(i as int) =~= Seq::<Seq<char>>::empty());
    }
    Some(current)
}

/// Number of direct entries of a block, zero for an atom.
pub fn count_entries(value: &ClausewitzValue) -> (r: usize)
    ensures
        r == spec_count_entries(value_view(*value)),
{
    match value {
        ClausewitzValue::Block(nodes) => {
            proof {
                lemma_nodes_view(nodes@);
            }
            nodes.len()
        },
        ClausewitzValue::Atom(_) => 0,
    }
}

/// The non-empty atom at `path`.
pub fn query_atom(value: &ClausewitzValue, path: &[&str]) -> (r: Option<String>)
    ensures
        opt_str_view(r) == match spec_query_path(value_view(*value), path_view(path@)) {
            Some(v) => spec_atom_string(v),
            None => None,
        },
{
    match query_path(value, path) {
        Some(v) => atom_string(v),
        None => None,
    }
}

/// The truth value at `path`.
pub fn query_bool(value: &ClausewitzValue, path: &[&str]) -> (r: Option<bool>)
    ensures
        r == match spec_query_path(value_view(*value), path_view(path@)) {
            Some(v) => spec_bool_from_value(v),
            None => None,
        },
{
    match query_path(value, path) {
        Some(v) => bool_from_value(v),
        None => None,
    }
}

/// The number of entries at `path`.
pub fn query_count(value: &ClausewitzValue, path: &[&str]) -> (r: Option<usize>)
    ensures
        r == match spec_query_path(value_view(*value), path_view(path@)) {
            Some(v) => Some(spec_count_entries(v) as usize),
            None => None,
        },
{
    match query_path(value, path) {
        Some(v) => Some(count_entries(v)),
        None => None,
    }
}

/// The distinct atoms at `path`; empty when the path is missing.
pub fn query_atoms(value: &ClausewitzValue, path: &[&str]) -> (r: Vec<String>)
    ensures
        strs_view(r@) == match spec_query_path(value_view(*value), path_view(path@)) {
            Some(v) => spec_collect_atoms(v),
            None => Seq::empty(),
        },
{
    match query_path(value, path) {
        Some(v) => collect_atoms(v),
        None => Vec::new(),
    }
}

} // verus!

verus! {

/// The non-empty atom at `path`, if any.
pub open spec fn atom_at(v: SValue, path: Seq<Seq<char>>) -> Option<Seq<char>> {
    match spec_query_path(v, path) {
        Some(x) => spec_atom_string(x),
        None => None,
    }
}

/// The entries of the block at `path`; `None` when the path is missing or
/// ends at an atom.
pub open spec fn block_at(v: SValue, path: Seq<Seq<char>>) -> Option<Seq<SNode>> {
    match spec_query_path(v, path) {
        Some(SValue::Block(ns)) => Some(ns),
        _ => None,
    }
}

/// The entries of the block at `path`, if the path leads to a block.
pub fn query_block<'a>(value: &'a ClausewitzValue, path: &[&str]) -> (r: Option<
    &'a Vec<ClausewitzNode>,
>)
    ensures
        match r {
            Some(ns) => block_at(value_view(*value), path_view(path@)) == Some(nodes_view(ns@)),
            None => block_at(value_view(*value), path_view(path@)) is None,
        },
{
    match query_path(value, path) {
        Some(ClausewitzValue::Block(nodes)) => Some(nodes),
        _ => None,
    }
}

} // verus!

verus! {

/// The value one direct entry down.
pub fn entry1<'a>(value: &'a ClausewitzValue, a: &str) -> (r: Option<&'a ClausewitzValue>)
    ensures
        opt_view(r) == spec_query_path(value_view(*value), seq![a@]),
{
    let p = [a];
    let r = query_path(value, &p);
    proof {
        assert(path_view(p@) =~= seq![a@]);
    }
    r
}

/// The value two direct entries down.
pub fn entry2<'a>(value: &'a ClausewitzValue, a: &str, b: &str) -> (r: Option<&'a ClausewitzValue>)
    ensures
        opt_view(r) == spec_query_path(value_view(*value), seq![a@, b@]),
{
    let p = [a, b];
    let r = query_path(value, &p);
    proof {
        assert(path_view(p@) =~= seq![a@, b@]);
    }
    r
}

/// The non-empty atom one entry down.
pub fn atom1(value: &ClausewitzValue, a: &str) -> (r: Option<String>)
    ensures
        opt_str_view(r) == atom_at(value_view(*value), seq![a@]),
{
    match entry1(value, a) {
        Some(v) => atom_string(v),
        None => None,
    }
}

/// The non-empty atom two entries down.
pub fn atom2(value: &ClausewitzValue, a: &str, b: &str) -> (r: Option<String>)
    ensures
        opt_str_view(r) == atom_at(value_view(*value), seq![a@, b@]),
{
    match entry2(value, a, b) {
        Some(v) => atom_string(v),
        None => None,
    }
}

/// The block one entry down.
pub fn block1<'a>(value: &'a ClausewitzValue, a: &str) -> (r: Option<&'a Vec<ClausewitzNode>>)
    ensures
        match r {
            Some(ns) => block_at(value_view(*value), seq![a@]) == Some(nodes_view(ns@)),
            None => block_at(value_view(*value), seq![a@]) is None,
        },
{
    match entry1(value, a) {
        Some(ClausewitzValue::Block(nodes)) => Some(nodes),
        _ => None,
    }
}

/// The block two entries down.
pub fn block2<'a>(value: &'a ClausewitzValue, a: &str, b: &str) -> (r: Option<
    &'a Vec<ClausewitzNode>,
>)
    ensures
        match r {
            Some(ns) => block_at(value_view(*value), seq![a@, b@]) == Some(nodes_view(ns@)),
            None => block_at(value_view(*value), seq![a@, b@]) is None,
        },
{
    match entry2(value, a, b) {
        Some(ClausewitzValue::Block(nodes)) => Some(nodes),
        _ => None,
    }
}

} // verus!
