//! The layer parser: a state machine over the lines of a keymap source that
//! finds the layer array, follows the layers in it and collects the rows of
//! key tokens of each.
use vstd::prelude::*;
use crate::keys::{clean_tokens, lemma_split_keys_clean, row_view, split_key_chars, split_keys};
use crate::text::{
    chars_of, contains, has_substring, lemma_contains_in_line, lemma_contains_in_trim, lines_of,
    split_lines, starts_with, string_of, trim, trimmed,
};

verus! {

/// One layer of the keymap: its place among the layers and its rows of key
/// tokens.
#[derive(Debug, Clone)]
pub struct Layer {
    /// The layer's number: 0 for the base layer.
    pub index: usize,
    /// The rows of the layer, each a sequence of key tokens.
    pub keys: Vec<Vec<String>>,
}

/// A layer as a mathematical value.
pub ghost struct LayerView {
    pub index: nat,
    pub keys: Seq<Seq<Seq<char>>>,
}

/// The rows of a layer, each token by its characters.
pub open spec fn grid_view(rows: Seq<Vec<String>>) -> Seq<Seq<Seq<char>>> {
    rows.map_values(|r: Vec<String>| row_view(r@))
}

impl View for Layer {
    type V = LayerView;

    open spec fn view(&self) -> LayerView {
        LayerView { index: self.index as nat, keys: grid_view(self.keys@) }
    }
}

/// Some layers as mathematical values.
pub open spec fn layers_view(layers: Seq<Layer>) -> Seq<LayerView> {
    layers.map_values(|l: Layer| l@)
}

/// Where the parser stands in the source.
#[derive(Clone, Copy, Debug, PartialEq, Eq, Structural)]
pub enum Mode {
    /// The layer array has not begun.
    Outside,
    /// Inside the layer array, between layers.
    InArray,
    /// Inside a layer, collecting rows.
    InLayer,
    /// Past the end of the layer array.
    Finished,
}

/// The parser between two lines.
pub struct ParserState {
    pub mode: Mode,
    /// The rows of the layer that is open.
    pub rows: Vec<Vec<String>>,
    /// The layers that are complete.
    pub layers: Vec<Layer>,
}

/// The parser's state as a mathematical value.
pub ghost struct ParserView {
    pub mode: Mode,
    pub rows: Seq<Seq<Seq<char>>>,
    pub layers: Seq<LayerView>,
}

impl View for ParserState {
    type V = ParserView;

    open spec fn view(&self) -> ParserView {
        ParserView {
            mode: self.mode,
            rows: grid_view(self.rows@),
            layers: layers_view(self.layers@),
        }
    }
}

/// The pattern of a line that opens a layer: the layout macro's name, plain
/// or with a suffix, and an opening parenthesis.
pub const LAYOUT_PATTERN: &'static str = "LAYOUT(_\\w+)?\\s*\\(";

/// Whether the regular expression `pattern` matches somewhere in `haystack`;
/// `None` where `pattern` is not accepted as a regular expression.
pub uninterp spec fn pattern_search(pattern: Seq<char>, haystack: Seq<char>) -> Option<bool>;

/// Compiles `pattern` with `regex::Regex::new` and searches `haystack` with
/// `regex::Regex::is_match`. Both depend on their arguments alone; the
/// contract gives the outcome a name and claims nothing else of it.
#[verifier::external_body]
fn search(pattern: &str, haystack: &str) -> (r: Option<bool>)
    ensures
        r == pattern_search(pattern@, haystack@),
{
    match regex::Regex::new(pattern) {
        Ok(re) => Some(re.is_match(haystack)),
        Err(_) => None,
    }
}

/// A blank line or a comment: skipped in every state.
pub open spec fn is_skipped(line: Seq<char>) -> bool {
    line.len() == 0 || "//"@.is_prefix_of(line)
}

/// A line that declares the layer array.
pub open spec fn opens_array(line: Seq<char>) -> bool {
    contains(line, "const uint16_t PROGMEM keymaps"@)
}

/// A line that closes the layer array, where no layer is open.
pub open spec fn closes_array(line: Seq<char>) -> bool {
    "};"@.is_prefix_of(line)
}

/// A line that closes the open layer.
pub open spec fn closes_layer(line: Seq<char>) -> bool {
    "),"@.is_prefix_of(line) || line == ")"@
}

/// The state in which the rest of a line is read: a line that declares the
/// layer array takes the parser into the array before anything else is
/// tested on it.
pub open spec fn entered(mode: Mode, line: Seq<char>) -> Mode {
    if mode == Mode::Outside && opens_array(line) {
        Mode::InArray
    } else {
        mode
    }
}

/// Whether the parser has to know if `line` opens a layer: not once it has
/// finished, not for a skipped line, not outside the array, and not for the
/// line that closes the array.
pub open spec fn consults_matcher(st: ParserView, line: Seq<char>) -> bool {
    &&& st.mode != Mode::Finished
    &&& !is_skipped(line)
    &&& entered(st.mode, line) != Mode::Outside
    &&& !(closes_array(line) && entered(st.mode, line) == Mode::InArray)
}

/// The parser's state after the trimmed line `line`, where `layout` says
/// whether the line opens a layer.
pub open spec fn next(st: ParserView, line: Seq<char>, layout: bool) -> ParserView {
    let mode = entered(st.mode, line);
    if st.mode == Mode::Finished || is_skipped(line) || mode == Mode::Outside {
        st
    } else if closes_array(line) && mode == Mode::InArray {
        ParserView { mode: Mode::Finished, ..st }
    } else if layout {
        ParserView { mode: Mode::InLayer, ..st }
    } else if mode == Mode::InLayer {
        if closes_layer(line) {
            if st.rows.len() > 0 {
                ParserView {
                    mode: Mode::InArray,
                    rows: Seq::empty(),
                    layers: st.layers.push(LayerView { index: st.layers.len(), keys: st.rows }),
                }
            } else {
                ParserView { mode: Mode::InArray, ..st }
            }
        } else {
            let keys = split_keys(line);
            if keys.len() > 0 {
                ParserView { mode, rows: st.rows.push(keys), ..st }
            } else {
                ParserView { mode, ..st }
            }
        }
    } else {
        ParserView { mode, ..st }
    }
}

/// The state before the first line.
pub open spec fn initial() -> ParserView {
    ParserView { mode: Mode::Outside, rows: Seq::empty(), layers: Seq::empty() }
}

/// One line of the run: the matcher is asked only where its answer counts,
/// and the run fails where it does not accept the pattern.
pub open spec fn advance(st: ParserView, line: Seq<char>) -> Option<ParserView> {
    if consults_matcher(st, line) {
        match pattern_search(LAYOUT_PATTERN@, line) {
            Some(layout) => Some(next(st, line, layout)),
            None => None,
        }
    } else {
        Some(next(st, line, false))
    }
}

/// The state that the lines lead to from `st`, each line trimmed before it
/// is read.
pub open spec fn run_from(st: ParserView, lines: Seq<Seq<char>>) -> Option<ParserView>
    decreases lines.len(),
{
    if lines.len() == 0 {
        Some(st)
    } else {
        match run_from(st, lines.drop_last()) {
            Some(before) => advance(before, trim(lines.last())),
            None => None,
        }
    }
}

/// The layers of a keymap source; `None` where the matcher does not accept
/// the pattern of a layer's first line.
pub open spec fn parse_spec(content: Seq<char>) -> Option<Seq<LayerView>> {
    match run_from(initial(), lines_of(content)) {
        Some(st) => Some(st.layers),
        None => None,
    }
}

/// Layers as the parser yields them: numbered from 0 in their order, each
/// with a row, no row without a token and no token empty.
pub open spec fn numbered(layers: Seq<LayerView>) -> bool {
    forall|i: int|
        0 <= i < layers.len() ==> {
            &&& (#[trigger] layers[i]).index == i
            &&& layers[i].keys.len() > 0
            &&& filled(layers[i].keys)
        }
}

/// What holds of the parser between any two lines: the layers are numbered
/// in the order in which they were closed, the open layer has no empty row,
/// and outside a layer no row is kept.
pub open spec fn well_formed(st: ParserView) -> bool {
    &&& numbered(st.layers)
    &&& filled(st.rows)
    &&& st.mode == Mode::Outside ==> st.rows.len() == 0 && st.layers.len() == 0
    &&& st.mode == Mode::InArray ==> st.rows.len() == 0
}

/// Every row has a token and no token is empty.
pub open spec fn filled(rows: Seq<Seq<Seq<char>>>) -> bool {
    forall|j: int| 0 <= j < rows.len() ==> (#[trigger] rows[j]).len() > 0 && clean_tokens(rows[j])
}

/// A step of the parser keeps the state well formed.
pub proof fn lemma_next_well_formed(st: ParserView, line: Seq<char>, layout: bool)
    requires
        well_formed(st),
    ensures
        well_formed(next(st, line, layout)),
{
    lemma_split_keys_clean(line);
}

/// A run from a well-formed state ends in one.
pub proof fn lemma_run_well_formed(st: ParserView, lines: Seq<Seq<char>>)
    requires
        well_formed(st),
    ensures
        run_from(st, lines) matches Some(after) ==> well_formed(after),
    decreases lines.len(),
{
    if lines.len() > 0 {
        lemma_run_well_formed(st, lines.drop_last());
        match run_from(st, lines.drop_last()) {
            Some(before) => {
                let t = trim(lines.last());
                lemma_next_well_formed(before, t, false);
                lemma_next_well_formed(before, t, true);
            },
            None => {},
        }
    }
}

/// A run that has failed stays failed.
pub proof fn lemma_run_stays_none(st: ParserView, lines: Seq<Seq<char>>, n: int)
    requires
        0 <= n <= lines.len(),
        run_from(st, lines.take(n)) is None,
    ensures
        run_from(st, lines) is None,
    decreases lines.len(),
{
    if n < lines.len() {
        assert(lines.drop_last().take(n) =~= lines.take(n));
        lemma_run_stays_none(st, lines.drop_last(), n);
    } else {
        assert(lines.take(n) =~= lines);
    }
}

/// A source in which the layer array is never declared has no layers.
pub proof fn lemma_no_array_no_layers(content: Seq<char>)
    requires
        !contains(content, "const uint16_t PROGMEM keymaps"@),
    ensures
        parse_spec(content) == Some(Seq::<LayerView>::empty()),
{
    let lines = lines_of(content);
    assert forall|k: int| 0 <= k < lines.len() implies !opens_array(trim(#[trigger] lines[k])) by {
        if opens_array(trim(lines[k])) {
            lemma_contains_in_trim(lines[k], "const uint16_t PROGMEM keymaps"@);
            lemma_contains_in_line(content, k, "const uint16_t PROGMEM keymaps"@);
        }
    }
    lemma_stays_outside(lines);
}

proof fn lemma_stays_outside(lines: Seq<Seq<char>>)
    requires
        forall|k: int| 0 <= k < lines.len() ==> !opens_array(trim(#[trigger] lines[k])),
    ensures
        run_from(initial(), lines) == Some(initial()),
    decreases lines.len(),
{
    if lines.len() > 0 {
        lemma_stays_outside(lines.drop_last());
    }
}

/// A layer as it stands in the source: the line that opens it, the lines of
/// its rows, and the line that closes it.
pub ghost struct Block {
    pub open: Seq<char>,
    pub rows: Seq<Seq<char>>,
    pub close: Seq<char>,
}

/// A line that declares the layer array and does nothing else.
pub open spec fn is_header_line(line: Seq<char>) -> bool {
    let t = trim(line);
    &&& !is_skipped(t)
    &&& opens_array(t)
    &&& !closes_array(t)
    &&& pattern_search(LAYOUT_PATTERN@, t) == Some(false)
}

/// A line that opens a layer.
pub open spec fn is_open_line(line: Seq<char>) -> bool {
    let t = trim(line);
    &&& !is_skipped(t)
    &&& !closes_array(t)
    &&& pattern_search(LAYOUT_PATTERN@, t) == Some(true)
}

/// A line that gives the open layer a row.
pub open spec fn is_row_line(line: Seq<char>) -> bool {
    let t = trim(line);
    &&& !is_skipped(t)
    &&& !closes_layer(t)
    &&& pattern_search(LAYOUT_PATTERN@, t) == Some(false)
    &&& split_keys(t).len() > 0
}

/// A line that closes the open layer.
pub open spec fn is_close_line(line: Seq<char>) -> bool {
    let t = trim(line);
    &&& !is_skipped(t)
    &&& closes_layer(t)
    &&& pattern_search(LAYOUT_PATTERN@, t) == Some(false)
}

/// A line that ends the layer array.
pub open spec fn is_end_line(line: Seq<char>) -> bool {
    let t = trim(line);
    !is_skipped(t) && closes_array(t)
}

/// A block whose lines are what they stand for.
pub open spec fn well_shaped(b: Block) -> bool {
    &&& is_open_line(b.open)
    &&& is_close_line(b.close)
    &&& forall|k: int| 0 <= k < b.rows.len() ==> is_row_line(#[trigger] b.rows[k])
}

/// The lines of a block, in their order.
pub open spec fn block_lines(b: Block) -> Seq<Seq<char>> {
    seq![b.open] + b.rows + seq![b.close]
}

/// The rows of tokens that the lines of a block hold.
pub open spec fn block_keys(b: Block) -> Seq<Seq<Seq<char>>> {
    b.rows.map_values(|l: Seq<char>| split_keys(trim(l)))
}

/// The lines of some blocks, one block after the other.
pub open spec fn blocks_lines(blocks: Seq<Block>) -> Seq<Seq<char>>
    decreases blocks.len(),
{
    if blocks.len() == 0 {
        Seq::empty()
    } else {
        blocks_lines(blocks.drop_last()) + block_lines(blocks.last())
    }
}

/// The layers after some blocks: each block with a row adds the layer of its
/// rows under the next number, and a block without rows adds nothing.
pub open spec fn layers_after(layers: Seq<LayerView>, blocks: Seq<Block>) -> Seq<LayerView>
    decreases blocks.len(),
{
    if blocks.len() == 0 {
        layers
    } else {
        let before = layers_after(layers, blocks.drop_last());
        if blocks.last().rows.len() > 0 {
            before.push(LayerView { index: before.len(), keys: block_keys(blocks.last()) })
        } else {
            before
        }
    }
}

/// The number of blocks that have a row.
pub open spec fn filled_blocks(blocks: Seq<Block>) -> nat
    decreases blocks.len(),
{
    if blocks.len() == 0 {
        0
    } else {
        filled_blocks(blocks.drop_last()) + if blocks.last().rows.len() > 0 {
            1nat
        } else {
            0nat
        }
    }
}

/// Reading two runs of lines one after the other is reading them as one.
pub proof fn lemma_run_concat(st: ParserView, a: Seq<Seq<char>>, b: Seq<Seq<char>>)
    ensures
        run_from(st, a + b) == match run_from(st, a) {
            Some(mid) => run_from(mid, b),
            None => None,
        },
    decreases b.len(),
{
    if b.len() > 0 {
        assert((a + b).drop_last() =~= a + b.drop_last());
        lemma_run_concat(st, a, b.drop_last());
    }
}

proof fn lemma_run_one(st: ParserView, line: Seq<char>)
    ensures
        run_from(st, seq![line]) == advance(st, trim(line)),
{
    reveal_with_fuel(run_from, 2);
}

/// A blank line or a comment changes nothing, wherever it stands.
pub proof fn lemma_skipped_line(st: ParserView, line: Seq<char>)
    requires
        is_skipped(trim(line)),
    ensures
        run_from(st, seq![line]) == Some(st),
{
    lemma_run_one(st, line);
}

proof fn lemma_run_rows(st: ParserView, rows: Seq<Seq<char>>)
    requires
        st.mode == Mode::InLayer,
        forall|k: int| 0 <= k < rows.len() ==> is_row_line(#[trigger] rows[k]),
    ensures
        run_from(st, rows) == Some(
            ParserView {
                mode: Mode::InLayer,
                rows: st.rows + rows.map_values(|l: Seq<char>| split_keys(trim(l))),
                layers: st.layers,
            },
        ),
    decreases rows.len(),
{
    let tokens = |l: Seq<char>| split_keys(trim(l));
    if rows.len() > 0 {
        let front = rows.drop_last();
        lemma_run_rows(st, front);
        assert((st.rows + front.map_values(tokens)).push(tokens(rows.last())) =~= st.rows
            + rows.map_values(tokens));
    }
}

/// From between two layers, a block with a row adds one layer, which holds
/// the block's rows under the next number; a block without rows adds none.
/// Either way the parser is between two layers again.
pub proof fn lemma_run_block(st: ParserView, b: Block)
    requires
        st.mode == Mode::InArray,
        st.rows.len() == 0,
        well_shaped(b),
    ensures
        run_from(st, block_lines(b)) == Some(
            ParserView {
                mode: Mode::InArray,
                rows: Seq::empty(),
                layers: if b.rows.len() > 0 {
                    st.layers.push(LayerView { index: st.layers.len(), keys: block_keys(b) })
                } else {
                    st.layers
                },
            },
        ),
{
    let opened = ParserView { mode: Mode::InLayer, ..st };
    lemma_run_one(st, b.open);
    lemma_run_rows(opened, b.rows);
    lemma_run_concat(st, seq![b.open], b.rows);
    let filled = ParserView { mode: Mode::InLayer, rows: block_keys(b), layers: st.layers };
    lemma_run_one(filled, b.close);
    lemma_run_concat(st, seq![b.open] + b.rows, seq![b.close]);
    assert(st.rows =~= Seq::empty());
}

/// From between two layers, some blocks leave the layers that `layers_after`
/// gives, and the parser between two layers.
pub proof fn lemma_run_blocks(st: ParserView, blocks: Seq<Block>)
    requires
        st.mode == Mode::InArray,
        st.rows.len() == 0,
        forall|k: int| 0 <= k < blocks.len() ==> well_shaped(#[trigger] blocks[k]),
    ensures
        run_from(st, blocks_lines(blocks)) == Some(
            ParserView {
                mode: Mode::InArray,
                rows: Seq::empty(),
                layers: layers_after(st.layers, blocks),
            },
        ),
    decreases blocks.len(),
{
    if blocks.len() == 0 {
        assert(st.rows =~= Seq::empty());
    } else {
        let front = blocks.drop_last();
        lemma_run_blocks(st, front);
        let mid = ParserView {
            mode: Mode::InArray,
            rows: Seq::empty(),
            layers: layers_after(st.layers, front),
        };
        lemma_run_block(mid, blocks.last());
        lemma_run_concat(st, blocks_lines(front), block_lines(blocks.last()));
    }
}

/// Once the layer array has ended, no line changes anything.
pub proof fn lemma_run_finished(st: ParserView, lines: Seq<Seq<char>>)
    requires
        st.mode == Mode::Finished,
    ensures
        run_from(st, lines) == Some(st),
    decreases lines.len(),
{
    if lines.len() > 0 {
        lemma_run_finished(st, lines.drop_last());
    }
}

/// The layers of a source that is made of lines before the layer array, the
/// line that declares the array, some blocks, and then either nothing or the
/// line that ends the array and anything after it: every block with a row
/// gives one layer, in the order of the source, and a block without rows
/// gives none.
pub proof fn lemma_parse_blocks(
    content: Seq<char>,
    before: Seq<Seq<char>>,
    header: Seq<char>,
    blocks: Seq<Block>,
    rest: Seq<Seq<char>>,
)
    requires
        lines_of(content) == before + seq![header] + blocks_lines(blocks) + rest,
        forall|k: int| 0 <= k < before.len() ==> !opens_array(trim(#[trigger] before[k])),
        is_header_line(header),
        forall|k: int| 0 <= k < blocks.len() ==> well_shaped(#[trigger] blocks[k]),
        rest.len() > 0 ==> is_end_line(rest[0]),
    ensures
        parse_spec(content) == Some(layers_after(Seq::empty(), blocks)),
{
    let start = initial();
    lemma_stays_outside(before);
    lemma_run_one(start, header);
    lemma_run_concat(start, before, seq![header]);
    let inside = ParserView { mode: Mode::InArray, ..start };
    lemma_run_blocks(inside, blocks);
    lemma_run_concat(start, before + seq![header], blocks_lines(blocks));
    let done = ParserView {
        mode: Mode::InArray,
        rows: Seq::empty(),
        layers: layers_after(Seq::empty(), blocks),
    };
    lemma_run_concat(start, before + seq![header] + blocks_lines(blocks), rest);
    if rest.len() > 0 {
        let ended = ParserView { mode: Mode::Finished, ..done };
        let tail = rest.skip(1);
        assert(rest =~= seq![rest[0]] + tail);
        lemma_run_one(done, rest[0]);
        lemma_run_finished(ended, tail);
        lemma_run_concat(done, seq![rest[0]], tail);
    }
}

/// The layers that some blocks give are as many as the blocks with a row,
/// they are numbered from 0 without a gap, and where every block has a row
/// the layer at place `k` holds the rows of block `k`.
pub proof fn lemma_layers_of_blocks(blocks: Seq<Block>)
    ensures
        layers_after(Seq::empty(), blocks).len() == filled_blocks(blocks),
        filled_blocks(blocks) <= blocks.len(),
        forall|k: int|
            0 <= k < layers_after(Seq::empty(), blocks).len() ==> (#[trigger] layers_after(
                Seq::empty(),
                blocks,
            )[k]).index == k,
        (forall|k: int| 0 <= k < blocks.len() ==> (#[trigger] blocks[k]).rows.len() > 0) ==> {
            &&& filled_blocks(blocks) == blocks.len()
            &&& forall|k: int|
                0 <= k < blocks.len() ==> (#[trigger] layers_after(Seq::empty(), blocks)[k]).keys
                    == block_keys(blocks[k])
        },
    decreases blocks.len(),
{
    if blocks.len() > 0 {
        lemma_layers_of_blocks(blocks.drop_last());
    }
}

impl ParserState {
    /// The parser before the first line.
    pub fn new() -> (st: ParserState)
        ensures
            st@ == initial(),
            well_formed(st@),
    {
        let st = ParserState { mode: Mode::Outside, rows: Vec::new(), layers: Vec::new() };
        assert(st@.rows =~= Seq::empty());
        assert(st@.layers =~= Seq::empty());
        st
    }

    /// Whether `step` has to be told if `line` opens a layer.
    pub fn needs_matcher(&self, line: &[char]) -> (b: bool)
        ensures
            b == consults_matcher(self@, line@),
    {
        if self.mode == Mode::Finished || line.len() == 0 || starts_with(
            line,
            chars_of("//").as_slice(),
        ) {
            return false;
        }
        let mode = enter(self.mode, line);
        mode != Mode::Outside && !(mode == Mode::InArray && starts_with(
            line,
            chars_of("};").as_slice(),
        ))
    }

    /// Reads one trimmed line. `layout` says whether the line opens a layer;
    /// it counts only where `needs_matcher` holds.
    pub fn step(self, line: &[char], layout: bool) -> (r: ParserState)
        ensures
            r@ == next(self@, line@, layout),
            well_formed(self@) ==> well_formed(r@),
    {
        proof {
            if well_formed(self@) {
                lemma_next_well_formed(self@, line@, layout);
            }
        }
        let ParserState { mode: before, rows, layers } = self;
        let mut rows = rows;
        let mut layers = layers;
        let ghost old_rows = grid_view(rows@);
        let ghost old_layers = layers_view(layers@);
        if before == Mode::Finished || line.len() == 0 || starts_with(
            line,
            chars_of("//").as_slice(),
        ) {
            return ParserState { mode: before, rows, layers };
        }
        let mode = enter(before, line);
        if mode == Mode::Outside {
            return ParserState { mode: before, rows, layers };
        }
        if mode == Mode::InArray && starts_with(line, chars_of("};").as_slice()) {
            return ParserState { mode: Mode::Finished, rows, layers };
        }
        if layout {
            return ParserState { mode: Mode::InLayer, rows, layers };
        }
        if mode == Mode::InLayer {
            if closes(line) {
                if rows.len() > 0 {
                    let index = layers.len();
                    let layer = Layer { index, keys: rows };
                    layers.push(layer);
                    let r = ParserState { mode: Mode::InArray, rows: Vec::new(), layers };
                    proof {
                        assert(r@.rows =~= Seq::empty());
                        assert(r@.layers =~= old_layers.push(
                            LayerView { index: old_layers.len(), keys: old_rows },
                        ));
                    }
                    return r;
                }
                return ParserState { mode: Mode::InArray, rows, layers };
            }
            let keys = split_key_chars(line);
            if keys.len() > 0 {
                rows.push(keys);
                proof {
                    assert(grid_view(rows@) =~= old_rows.push(split_keys(line@)));
                }
            }
            return ParserState { mode, rows, layers };
        }
        ParserState { mode, rows, layers }
    }
}

fn enter(mode: Mode, line: &[char]) -> (m: Mode)
    ensures
        m == entered(mode, line@),
{
    if mode == Mode::Outside && has_substring(
        line,
        chars_of("const uint16_t PROGMEM keymaps").as_slice(),
    ) {
        Mode::InArray
    } else {
        mode
    }
}

fn closes(line: &[char]) -> (b: bool)
    ensures
        b == closes_layer(line@),
{
    let close = chars_of(")");
    let b = starts_with(line, chars_of("),").as_slice()) || (line.len() == close.len()
        && starts_with(line, close.as_slice()));
    proof {
        if line@.len() == ")"@.len() && ")"@.is_prefix_of(line@) {
            assert(line@ =~= ")"@);
        }
    }
    b
}

/// Why a keymap source could not be read.
#[derive(Debug, Clone, Copy, PartialEq, Eq)]
pub enum ParseError {
    /// The matcher did not accept the pattern of a layer's first line.
    Pattern,
}

/// Reads the layers of a keymap source.
pub fn parse_layers(content: &str) -> (r: Result<Vec<Layer>, ParseError>)
    ensures
        match r {
            Ok(layers) => parse_spec(content@) == Some(layers_view(layers@)),
            Err(_) => parse_spec(content@) is None,
        },
        r matches Ok(layers) ==> numbered(layers_view(layers@)),
{
    let chars = chars_of(content);
    let lines = split_lines(chars.as_slice());
    let ghost all = lines_of(content@);
    let mut st = ParserState::new();
    let mut i: usize = 0;
    while i < lines.len()
        invariant
            i <= lines.len(),
            lines@.map_values(|l: Vec<char>| l@) == all,
            all == lines_of(content@),
            run_from(initial(), all.take(i as int)) == Some(st@),
        decreases lines.len() - i,
    {
        proof {
            assert(all.take(i + 1).drop_last() =~= all.take(i as int));
        }
        let line = trimmed(lines[i].as_slice());
        let layout = if st.needs_matcher(line.as_slice()) {
            let text = string_of(line.as_slice());
            match search(LAYOUT_PATTERN, text.as_str()) {
                Some(b) => b,
                None => {
                    proof {
                        lemma_run_stays_none(initial(), all, i + 1);
                    }
                    return Err(ParseError::Pattern);
                },
            }
        } else {
            false
        };
        st = st.step(line.as_slice(), layout);
        i += 1;
    }
    proof {
        assert(all.take(i as int) =~= all);
        lemma_run_well_formed(initial(), all);
    }
    Ok(st.layers)
}

} // verus!
