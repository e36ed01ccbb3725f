//! Key tokens: the test for an unassigned key and the splitter that cuts one
//! line of a layer into its tokens.
use vstd::prelude::*;
use crate::text::{chars_of, is_trimmed, lemma_trim_is_trimmed, string_of, trim, trimmed};

verus! {

/// The tokens of a row, each by its characters.
pub open spec fn row_view(row: Seq<String>) -> Seq<Seq<char>> {
    row.map_values(|k: String| k@)
}

/// An unassigned key: one or more underscores and nothing else.
pub open spec fn is_blank(key: Seq<char>) -> bool {
    key.len() >= 1 && forall|i: int| 0 <= i < key.len() ==> key[i] == '_'
}

/// Whether the characters are those of an unassigned key.
pub fn is_blank_chars(key: &[char]) -> (b: bool)
    ensures
        b == is_blank(key@),
{
    if key.len() == 0 {
        return false;
    }
    let mut i: usize = 0;
    while i < key.len()
        invariant
            i <= key.len(),
            forall|j: int| 0 <= j < i ==> key@[j] == '_',
        decreases key.len() - i,
    {
        if key[i] != '_' {
            return false;
        }
        i += 1;
    }
    true
}

/// Whether a key token stands for an unassigned key.
pub fn is_empty_key(key: &str) -> (b: bool)
    ensures
        b == is_blank(key@),
{
    let chars = chars_of(key);
    is_blank_chars(chars.as_slice())
}

/// What the splitter knows after some characters of a line: the tokens that
/// are complete, the characters of the token it is in, and how many more
/// parentheses were opened than closed (negative where more were closed).
pub ghost struct SplitState {
    pub tokens: Seq<Seq<char>>,
    pub current: Seq<char>,
    pub depth: int,
}

/// Ends a token: its trimmed text joins the tokens unless it is empty.
pub open spec fn flush(tokens: Seq<Seq<char>>, current: Seq<char>) -> Seq<Seq<char>> {
    let t = trim(current);
    if t.len() > 0 {
        tokens.push(t)
    } else {
        tokens
    }
}

/// One character of the scan. A comma ends the token only at depth 0; every
/// other character, parentheses and inner commas included, joins the token.
pub open spec fn split_step(st: SplitState, c: char) -> SplitState {
    if c == ',' && st.depth == 0 {
        SplitState { tokens: flush(st.tokens, st.current), current: Seq::empty(), depth: 0 }
    } else {
        SplitState {
            tokens: st.tokens,
            current: st.current.push(c),
            depth: if c == '(' {
                st.depth + 1
            } else if c == ')' {
                st.depth - 1
            } else {
                st.depth
            },
        }
    }
}

/// The splitter's state after the first `n` characters of `s`.
pub open spec fn split_scan(s: Seq<char>, n: nat) -> SplitState
    decreases n,
{
    if n == 0 {
        SplitState { tokens: Seq::empty(), current: Seq::empty(), depth: 0 }
    } else {
        split_step(split_scan(s, (n - 1) as nat), s[n - 1])
    }
}

/// `s` without the commas at its end.
pub open spec fn strip_commas(s: Seq<char>) -> Seq<char>
    decreases s.len(),
{
    if s.len() > 0 && s.last() == ',' {
        strip_commas(s.drop_last())
    } else {
        s
    }
}

/// The key tokens of one line: the commas at the line's end are dropped, the
/// rest is cut at each comma that stands outside parentheses, each piece is
/// trimmed, and empty pieces are left out.
pub open spec fn split_keys(line: Seq<char>) -> Seq<Seq<char>> {
    let body = strip_commas(line);
    let st = split_scan(body, body.len());
    flush(st.tokens, st.current)
}

/// Whether each of the tokens holds at least one character and has no white
/// space at either end.
pub open spec fn clean_tokens(tokens: Seq<Seq<char>>) -> bool {
    forall|i: int|
        0 <= i < tokens.len() ==> (#[trigger] tokens[i]).len() > 0 && is_trimmed(tokens[i])
}

proof fn lemma_flush_clean(tokens: Seq<Seq<char>>, current: Seq<char>)
    requires
        clean_tokens(tokens),
    ensures
        clean_tokens(flush(tokens, current)),
{
    lemma_trim_is_trimmed(current);
}

proof fn lemma_scan_clean(s: Seq<char>, n: nat)
    ensures
        clean_tokens(split_scan(s, n).tokens),
    decreases n,
{
    if n > 0 {
        lemma_scan_clean(s, (n - 1) as nat);
        let prev = split_scan(s, (n - 1) as nat);
        lemma_flush_clean(prev.tokens, prev.current);
    }
}

/// The splitter yields no empty token and none with white space at an end.
pub proof fn lemma_split_keys_clean(line: Seq<char>)
    ensures
        clean_tokens(split_keys(line)),
{
    let body = strip_commas(line);
    lemma_scan_clean(body, body.len());
    let st = split_scan(body, body.len());
    lemma_flush_clean(st.tokens, st.current);
}

fn flush_token(tokens: &mut Vec<String>, current: &Vec<char>)
    ensures
        row_view(final(tokens)@) == flush(row_view(old(tokens)@), current@),
{
    let t = trimmed(current.as_slice());
    if t.len() > 0 {
        let key = string_of(t.as_slice());
        tokens.push(key);
    }
}

/// Splits the characters of one line into key tokens.
pub fn split_key_chars(line: &[char]) -> (keys: Vec<String>)
    ensures
        row_view(keys@) == split_keys(line@),
        clean_tokens(row_view(keys@)),
{
    let mut end: usize = line.len();
    assert(line@.subrange(0, end as int) =~= line@);
    while end > 0 && line[end - 1] == ','
        invariant
            end <= line.len(),
            strip_commas(line@) == strip_commas(line@.subrange(0, end as int)),
        decreases end,
    {
        proof {
            assert(line@.subrange(0, end as int).drop_last() =~= line@.subrange(0, end - 1));
        }
        end -= 1;
    }
    let ghost body = line@.subrange(0, end as int);
    let mut keys: Vec<String> = Vec::new();
    let mut current: Vec<char> = Vec::new();
    let mut opened: usize = 0;
    let mut closed: usize = 0;
    let mut i: usize = 0;
    assert(row_view(keys@) =~= Seq::<Seq<char>>::empty());
    while i < end
        invariant
            i <= end <= line.len(),
            body == line@.subrange(0, end as int),
            opened <= i,
            closed <= i,
            split_scan(body, i as nat) == (SplitState {
                tokens: row_view(keys@),
                current: current@,
                depth: opened - closed,
            }),
        decreases end - i,
    {
        let c = line[i];
        if c == ',' && opened == closed {
            flush_token(&mut keys, &current);
            current = Vec::new();
            opened = 0;
            closed = 0;
        } else {
            current.push(c);
            if c == '(' {
                opened += 1;
            } else if c == ')' {
                closed += 1;
            }
        }
        i += 1;
    }
    flush_token(&mut keys, &current);
    proof {
        lemma_split_keys_clean(line@);
    }
    keys
}

/// Splits one line of a layer into its key tokens.
pub fn parse_keys_with_parens(line: &str) -> (keys: Vec<String>)
    ensures
        row_view(keys@) == split_keys(line@),
        clean_tokens(row_view(keys@)),
{
    let chars = chars_of(line);
    split_key_chars(chars.as_slice())
}

} // verus!
