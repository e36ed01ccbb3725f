//! The layout engine: the size of the canvas and the place, size and category
//! of every key of every layer on the fixed shape of the split keyboard.
use vstd::prelude::*;
use vstd::string::{StrSliceExecFns, StringExecFns};
use crate::classify::{classify, classify_spec, decimal, push_decimal, KeyClass};
use crate::keys::{is_blank, is_empty_key, row_view};
use crate::parser::{layers_view, Layer, LayerView};
use crate::text::chars_of;

verus! {

/// The height of a key.
pub const KEY_HEIGHT: i64 = 60;

/// The space between two keys, across and down.
pub const KEY_SPACING: i64 = 5;

/// The space between the two halves.
pub const SPLIT_GAP: i64 = 40;

/// The space below a layer.
pub const LAYER_SPACING: i64 = 120;

/// The space around the drawing.
pub const MARGIN: i64 = 20;

/// The width allowed for one character of a label.
pub const CHAR_WIDTH: i64 = 7;

/// The room left free on each side of a label.
pub const KEY_PADDING: i64 = 10;

/// The width of a key with short labels.
pub const MIN_KEY_WIDTH: i64 = 60;

/// The room below a layer's title, before its first row.
pub const TITLE_HEIGHT: i64 = 40;

/// The room that the canvas allows for a layer's title.
pub const TITLE_ALLOWANCE: i64 = 50;

/// The label length assumed where there is no key at all.
pub const DEFAULT_LABEL_LEN: usize = 8;

/// The rows of the keyboard.
pub const GEOMETRY_ROWS: usize = 4;

/// The column slots of the left half, the stagger of its bottom row included.
pub const LEFT_SLOTS: i64 = 8;

/// The column slots of the right half.
pub const RIGHT_SLOTS: i64 = 6;

/// The largest number of layers, of keys in a row and of characters in a
/// label that the layout takes. Within it every coordinate is far below
/// 2^53, so a renderer that counts in floating point loses nothing.
pub const LIMIT: usize = 16_777_216;

/// The shape of one row of the keyboard: the keys of each half, and how far
/// each half of the row is shifted to the right, in column slots.
#[derive(Clone, Copy, Debug, PartialEq, Eq, Structural)]
pub struct RowShape {
    pub left_count: usize,
    pub left_offset: i64,
    pub right_count: usize,
    pub right_offset: i64,
}

/// The shape of the keyboard: three rows of six keys on each half, and a
/// bottom row of five keys on the left, two slots in, and three on the
/// right, one slot out.
pub open spec fn geometry_spec(row: int) -> RowShape {
    if row == 3 {
        RowShape { left_count: 5, left_offset: 2, right_count: 3, right_offset: -1i64 }
    } else {
        RowShape { left_count: 6, left_offset: 0, right_count: 6, right_offset: 0 }
    }
}

/// The shape of a row of the keyboard.
pub fn geometry(row: usize) -> (shape: RowShape)
    requires
        row < GEOMETRY_ROWS,
    ensures
        shape == geometry_spec(row as int),
{
    if row == 3 {
        RowShape { left_count: 5, left_offset: 2, right_count: 3, right_offset: -1i64 }
    } else {
        RowShape { left_count: 6, left_offset: 0, right_count: 6, right_offset: 0 }
    }
}

/// The larger of two lengths, where either may be missing.
pub open spec fn join(a: Option<nat>, b: Option<nat>) -> Option<nat> {
    match (a, b) {
        (None, _) => b,
        (_, None) => a,
        (Some(x), Some(y)) => Some(if x < y { y } else { x }),
    }
}

/// The length of the longest label of a row; `None` for a row without keys.
pub open spec fn row_longest(row: Seq<Seq<char>>) -> Option<nat>
    decreases row.len(),
{
    if row.len() == 0 {
        None
    } else {
        join(row_longest(row.drop_last()), Some(row.last().len()))
    }
}

/// The length of the longest label of some rows; `None` where they hold no
/// key.
pub open spec fn grid_longest(rows: Seq<Seq<Seq<char>>>) -> Option<nat>
    decreases rows.len(),
{
    if rows.len() == 0 {
        None
    } else {
        join(grid_longest(rows.drop_last()), row_longest(rows.last()))
    }
}

/// The length of the longest label of some layers, every row counted;
/// `None` where they hold no key.
pub open spec fn layers_longest(layers: Seq<LayerView>) -> Option<nat>
    decreases layers.len(),
{
    if layers.len() == 0 {
        None
    } else {
        join(layers_longest(layers.drop_last()), grid_longest(layers.last().keys))
    }
}

/// The label length that sizes the keys.
pub open spec fn max_label_len(layers: Seq<LayerView>) -> nat {
    match layers_longest(layers) {
        Some(n) => n,
        None => DEFAULT_LABEL_LEN as nat,
    }
}

/// The width of a key for labels of up to `label_len` characters.
pub open spec fn key_width_for(label_len: nat) -> int {
    let w = label_len * CHAR_WIDTH + 2 * KEY_PADDING;
    if w < MIN_KEY_WIDTH {
        MIN_KEY_WIDTH as int
    } else {
        w
    }
}

/// The width of a column slot: a key and the space beside it.
pub open spec fn cell_size(key_width: int) -> int {
    key_width + KEY_SPACING
}

/// Where the right half begins.
pub open spec fn right_base(key_width: int) -> int {
    MARGIN + LEFT_SLOTS * cell_size(key_width) + SPLIT_GAP
}

/// The width of the canvas for keys of the given width.
pub open spec fn canvas_width_for(key_width: int) -> int {
    2 * MARGIN + LEFT_SLOTS * cell_size(key_width) + SPLIT_GAP + RIGHT_SLOTS * cell_size(
        key_width,
    )
}

/// The height of the canvas for the given number of layers.
pub open spec fn canvas_height_for(layer_count: nat) -> int {
    MARGIN + layer_count * (GEOMETRY_ROWS * (KEY_HEIGHT + KEY_SPACING) + TITLE_ALLOWANCE
        + LAYER_SPACING)
}

/// Where the title of the layer at place `i` stands.
pub open spec fn title_y(i: int) -> int {
    MARGIN + i * (TITLE_HEIGHT + GEOMETRY_ROWS * (KEY_HEIGHT + KEY_SPACING) + LAYER_SPACING)
}

/// The half of the keyboard, or the room beside it, in which a column of a
/// row lies.
pub open spec fn on_right_half(row: int, col: int) -> bool {
    let shape = geometry_spec(row);
    shape.left_count <= col < shape.left_count + shape.right_count
}

/// The left edge of the key in column `col` of row `row`. The keys of the
/// left half start at the margin, shifted by the row's left offset; those of
/// the right half start where the right half begins, shifted by the row's
/// right offset; keys beyond both halves follow the right half, unshifted.
pub open spec fn key_x(row: int, col: int, key_width: int) -> int {
    let shape = geometry_spec(row);
    let cell = cell_size(key_width);
    if col < shape.left_count {
        MARGIN + shape.left_offset * cell + col * cell
    } else if col < shape.left_count + shape.right_count {
        right_base(key_width) + shape.right_offset * cell + (col - shape.left_count) * cell
    } else {
        right_base(key_width) + (col - shape.left_count) * cell
    }
}

/// A key on the canvas.
#[derive(Debug, Clone)]
pub struct PlacedKey {
    pub x: i64,
    pub y: i64,
    pub width: i64,
    pub height: i64,
    pub class: KeyClass,
    pub label: String,
    /// Whether the key is drawn: an unassigned key of the right half is left
    /// out, except in the bottom row.
    pub drawn: bool,
}

/// A key on the canvas as a mathematical value.
pub ghost struct PlacedKeyView {
    pub x: int,
    pub y: int,
    pub width: int,
    pub height: int,
    pub class: KeyClass,
    pub label: Seq<char>,
    pub drawn: bool,
}

impl View for PlacedKey {
    type V = PlacedKeyView;

    open spec fn view(&self) -> PlacedKeyView {
        PlacedKeyView {
            x: self.x as int,
            y: self.y as int,
            width: self.width as int,
            height: self.height as int,
            class: self.class,
            label: self.label@,
            drawn: self.drawn,
        }
    }
}

/// A layer on the canvas: its title and its keys, row by row.
#[derive(Debug, Clone)]
pub struct PlacedLayer {
    pub index: usize,
    pub title: String,
    pub title_x: i64,
    pub title_y: i64,
    pub rows: Vec<Vec<PlacedKey>>,
}

/// A layer on the canvas as a mathematical value.
pub ghost struct PlacedLayerView {
    pub index: nat,
    pub title: Seq<char>,
    pub title_x: int,
    pub title_y: int,
    pub rows: Seq<Seq<PlacedKeyView>>,
}

/// The keys of a placed row as mathematical values.
pub open spec fn placed_row_view(row: Seq<PlacedKey>) -> Seq<PlacedKeyView> {
    row.map_values(|k: PlacedKey| k@)
}

impl View for PlacedLayer {
    type V = PlacedLayerView;

    open spec fn view(&self) -> PlacedLayerView {
        PlacedLayerView {
            index: self.index as nat,
            title: self.title@,
            title_x: self.title_x as int,
            title_y: self.title_y as int,
            rows: self.rows@.map_values(|r: Vec<PlacedKey>| placed_row_view(r@)),
        }
    }
}

/// The canvas and everything on it.
#[derive(Debug, Clone)]
pub struct Layout {
    pub width: i64,
    pub height: i64,
    pub key_width: i64,
    pub layers: Vec<PlacedLayer>,
}

/// The canvas as a mathematical value.
pub ghost struct LayoutView {
    pub width: int,
    pub height: int,
    pub key_width: int,
    pub layers: Seq<PlacedLayerView>,
}

impl View for Layout {
    type V = LayoutView;

    open spec fn view(&self) -> LayoutView {
        LayoutView {
            width: self.width as int,
            height: self.height as int,
            key_width: self.key_width as int,
            layers: self.layers@.map_values(|l: PlacedLayer| l@),
        }
    }
}

/// The key with the given label in column `col` of row `row` of a layer
/// whose first row starts at `top`.
pub open spec fn place_key_spec(
    label: Seq<char>,
    row: int,
    col: int,
    layer_index: usize,
    top: int,
    key_width: int,
) -> PlacedKeyView {
    PlacedKeyView {
        x: key_x(row, col, key_width),
        y: top + row * (KEY_HEIGHT + KEY_SPACING),
        width: key_width,
        height: KEY_HEIGHT as int,
        class: classify_spec(label, layer_index),
        label,
        drawn: !(on_right_half(row, col) && is_blank(label) && row < GEOMETRY_ROWS - 1),
    }
}

/// The keys of one row of a layer, one for each token, in the row's order.
pub open spec fn place_row_spec(
    row_keys: Seq<Seq<char>>,
    row: int,
    layer_index: usize,
    top: int,
    key_width: int,
) -> Seq<PlacedKeyView> {
    Seq::new(
        row_keys.len(),
        |col: int| place_key_spec(row_keys[col], row, col, layer_index, top, key_width),
    )
}

/// The number of rows of a layer that are placed: those that the keyboard
/// has a row for.
pub open spec fn placed_rows(layer: LayerView) -> nat {
    if layer.keys.len() < GEOMETRY_ROWS {
        layer.keys.len()
    } else {
        GEOMETRY_ROWS as nat
    }
}

/// The title of a layer: the word `Layer` and the layer's number.
pub open spec fn title_text(index: nat) -> Seq<char> {
    "Layer "@ + decimal(index)
}

/// The layer at place `i` on the canvas. Its title stands at the margin; its
/// rows start below the title, and rows beyond the keyboard's are left out.
pub open spec fn place_layer_spec(layer: LayerView, i: int, key_width: int) -> PlacedLayerView {
    PlacedLayerView {
        index: layer.index,
        title: title_text(layer.index),
        title_x: MARGIN as int,
        title_y: title_y(i),
        rows: Seq::new(
            placed_rows(layer),
            |r: int|
                place_row_spec(
                    layer.keys[r],
                    r,
                    layer.index as usize,
                    title_y(i) + TITLE_HEIGHT,
                    key_width,
                ),
        ),
    }
}

/// The layout of some layers.
pub open spec fn layout_spec(layers: Seq<LayerView>) -> LayoutView {
    let key_width = key_width_for(max_label_len(layers));
    LayoutView {
        width: canvas_width_for(key_width),
        height: canvas_height_for(layers.len()),
        key_width,
        layers: Seq::new(layers.len(), |i: int| place_layer_spec(layers[i], i, key_width)),
    }
}

/// Whether no row is longer than the limit.
pub open spec fn grid_within(rows: Seq<Seq<Seq<char>>>) -> bool {
    forall|j: int| 0 <= j < rows.len() ==> (#[trigger] rows[j]).len() <= LIMIT
}

/// Whether no row of any layer is longer than the limit.
pub open spec fn rows_within(layers: Seq<LayerView>) -> bool {
    forall|i: int| 0 <= i < layers.len() ==> grid_within((#[trigger] layers[i]).keys)
}

/// The layers that can be laid out: no more of them, no more keys in a row
/// and no longer label than the limit.
pub open spec fn fits(layers: Seq<LayerView>) -> bool {
    &&& layers.len() <= LIMIT
    &&& rows_within(layers)
    &&& max_label_len(layers) <= LIMIT
}

/// What stands for a character in markup: the five reserved characters are
/// written as entities, every other character as itself.
pub open spec fn entity(c: char) -> Seq<char> {
    if c == '&' {
        "&amp;"@
    } else if c == '<' {
        "&lt;"@
    } else if c == '>' {
        "&gt;"@
    } else if c == '"' {
        "&quot;"@
    } else if c == '\'' {
        "&apos;"@
    } else {
        seq![c]
    }
}

/// A label as it is written in markup: each character by its `entity`.
pub open spec fn escaped(label: Seq<char>) -> Seq<char>
    decreases label.len(),
{
    if label.len() == 0 {
        Seq::empty()
    } else {
        escaped(label.drop_last()) + entity(label.last())
    }
}

/// Escapes a label for a renderer that writes text as it gets it.
pub fn escape_label(label: &str) -> (out: String)
    ensures
        out@ == escaped(label@),
{
    let chars = chars_of(label);
    let mut out = String::new();
    let mut i: usize = 0;
    while i < chars.len()
        invariant
            i <= chars.len(),
            out@ == escaped(chars@.take(i as int)),
        decreases chars.len() - i,
    {
        let c = chars[i];
        proof {
            let t = chars@.take(i + 1);
            assert(t.drop_last() =~= chars@.take(i as int));
        }
        if c == '&' {
            out.append("&amp;");
        } else if c == '<' {
            out.append("&lt;");
        } else if c == '>' {
            out.append("&gt;");
        } else if c == '"' {
            out.append("&quot;");
        } else if c == '\'' {
            out.append("&apos;");
        } else {
            out.push(c);
        }
        i += 1;
    }
    assert(chars@.take(chars.len() as int) =~= chars@);
    out
}

/// The layout is repeatable: whatever `layout` returns for layers with the
/// same numbers and the same tokens, it is the same layout or both times
/// none.
pub proof fn lemma_layout_repeatable(
    a: Seq<Layer>,
    b: Seq<Layer>,
    first: Option<Layout>,
    second: Option<Layout>,
)
    requires
        layers_view(a) == layers_view(b),
        first is Some <==> fits(layers_view(a)),
        first matches Some(l) ==> l@ == layout_spec(layers_view(a)),
        second is Some <==> fits(layers_view(b)),
        second matches Some(l) ==> l@ == layout_spec(layers_view(b)),
    ensures
        first is Some <==> second is Some,
        first is Some ==> first->0@ == second->0@,
{
}

/// The canvas does not get narrower with a longer longest label, nor lower
/// with more layers.
pub proof fn lemma_canvas_grows(a: Seq<LayerView>, b: Seq<LayerView>)
    ensures
        max_label_len(a) <= max_label_len(b) ==> layout_spec(a).width <= layout_spec(b).width,
        a.len() <= b.len() ==> layout_spec(a).height <= layout_spec(b).height,
{
    assert(a.len() <= b.len() ==> a.len() * 430 <= b.len() * 430);
}

/// A length that may be missing, as a mathematical value.
pub open spec fn as_nat(n: Option<usize>) -> Option<nat> {
    match n {
        Some(n) => Some(n as nat),
        None => None,
    }
}

fn longer(a: Option<usize>, b: Option<usize>) -> (r: Option<usize>)
    ensures
        as_nat(r) == join(as_nat(a), as_nat(b)),
{
    match (a, b) {
        (None, _) => b,
        (_, None) => a,
        (Some(x), Some(y)) => Some(if x < y { y } else { x }),
    }
}

fn longest_in_row(row: &Vec<String>) -> (r: Option<usize>)
    ensures
        as_nat(r) == row_longest(row_view(row@)),
{
    let mut acc: Option<usize> = None;
    let mut j: usize = 0;
    while j < row.len()
        invariant
            j <= row.len(),
            as_nat(acc) == row_longest(row_view(row@).take(j as int)),
        decreases row.len() - j,
    {
        let n = row[j].as_str().unicode_len();
        proof {
            let t = row_view(row@).take(j + 1);
            assert(t.drop_last() =~= row_view(row@).take(j as int));
        }
        acc = longer(acc, Some(n));
        j += 1;
    }
    assert(row_view(row@).take(row.len() as int) =~= row_view(row@));
    acc
}

fn measure_layer(layer: &Layer) -> (r: (Option<usize>, bool))
    ensures
        as_nat(r.0) == grid_longest(layer@.keys),
        r.1 == grid_within(layer@.keys),
{
    let ghost rows = layer@.keys;
    let mut acc: Option<usize> = None;
    let mut within = true;
    let mut j: usize = 0;
    while j < layer.keys.len()
        invariant
            j <= layer.keys.len(),
            rows == layer@.keys,
            as_nat(acc) == grid_longest(rows.take(j as int)),
            within == grid_within(rows.take(j as int)),
        decreases layer.keys.len() - j,
    {
        let row = &layer.keys[j];
        proof {
            let t = rows.take(j + 1);
            assert(t.drop_last() =~= rows.take(j as int));
        }
        acc = longer(acc, longest_in_row(row));
        within = within && row.len() <= LIMIT;
        j += 1;
    }
    assert(rows.take(layer.keys.len() as int) =~= rows);
    (acc, within)
}

fn measure(layers: &[Layer]) -> (r: (Option<usize>, bool))
    ensures
        as_nat(r.0) == layers_longest(layers_view(layers@)),
        r.1 == rows_within(layers_view(layers@)),
{
    let ghost all = layers_view(layers@);
    let mut acc: Option<usize> = None;
    let mut within = true;
    let mut i: usize = 0;
    while i < layers.len()
        invariant
            i <= layers.len(),
            all == layers_view(layers@),
            as_nat(acc) == layers_longest(all.take(i as int)),
            within == (forall|k: int| 0 <= k < i ==> grid_within((#[trigger] all[k]).keys)),
        decreases layers.len() - i,
    {
        proof {
            let t = all.take(i + 1);
            assert(t.drop_last() =~= all.take(i as int));
        }
        let (longest, ok) = measure_layer(&layers[i]);
        acc = longer(acc, longest);
        within = within && ok;
        i += 1;
    }
    assert(all.take(layers.len() as int) =~= all);
    (acc, within)
}

/// The width of a key for labels of up to `label_len` characters.
pub fn key_width(label_len: usize) -> (w: i64)
    requires
        label_len <= LIMIT,
    ensures
        w == key_width_for(label_len as nat),
        MIN_KEY_WIDTH <= w <= LIMIT * CHAR_WIDTH + 2 * KEY_PADDING,
{
    let w = label_len as i64 * CHAR_WIDTH + 2 * KEY_PADDING;
    if w < MIN_KEY_WIDTH {
        MIN_KEY_WIDTH
    } else {
        w
    }
}

/// The width of the canvas for keys of the given width.
pub fn canvas_width(key_width: i64) -> (w: i64)
    requires
        MIN_KEY_WIDTH <= key_width <= LIMIT * CHAR_WIDTH + 2 * KEY_PADDING,
    ensures
        w == canvas_width_for(key_width as int),
{
    let cell = key_width + KEY_SPACING;
    2 * MARGIN + LEFT_SLOTS * cell + SPLIT_GAP + RIGHT_SLOTS * cell
}

/// The height of the canvas for the given number of layers.
pub fn canvas_height(layer_count: usize) -> (h: i64)
    requires
        layer_count <= LIMIT,
    ensures
        h == canvas_height_for(layer_count as nat),
{
    let per_layer: i64 = GEOMETRY_ROWS as i64 * (KEY_HEIGHT + KEY_SPACING) + TITLE_ALLOWANCE
        + LAYER_SPACING;
    let n = layer_count as i64;
    assert(n * per_layer == n * 430) by (nonlinear_arith)
        requires
            per_layer == 430,
    ;
    MARGIN + n * per_layer
}

fn place_key(
    label: &String,
    row: usize,
    col: usize,
    layer_index: usize,
    top: i64,
    key_width: i64,
) -> (k: PlacedKey)
    requires
        row < GEOMETRY_ROWS,
        col < LIMIT,
        0 <= top <= i64::MAX / 2,
        MIN_KEY_WIDTH <= key_width <= LIMIT * CHAR_WIDTH + 2 * KEY_PADDING,
    ensures
        k@ == place_key_spec(
            label@,
            row as int,
            col as int,
            layer_index,
            top as int,
            key_width as int,
        ),
{
    let shape = geometry(row);
    let cell = key_width + KEY_SPACING;
    let c = col as i64;
    let base = MARGIN + LEFT_SLOTS * cell + SPLIT_GAP;
    proof {
        assert(0 <= c * cell <= 16_777_216 * 117_440_537) by (nonlinear_arith)
            requires
                0 <= c <= 16_777_216,
                0 <= cell <= 117_440_537,
        ;
        assert(shape.left_offset * cell == if row == 3 {
            2 * cell
        } else {
            0
        }) by (nonlinear_arith)
            requires
                shape.left_offset == if row == 3 {
                    2i64
                } else {
                    0i64
                },
        ;
        assert(shape.right_offset * cell == if row == 3 {
            -cell
        } else {
            0
        }) by (nonlinear_arith)
            requires
                shape.right_offset == if row == 3 {
                    -1i64
                } else {
                    0i64
                },
        ;
        assert((c - shape.left_count) * cell == c * cell - shape.left_count * cell
            && shape.left_count * cell == if row == 3 {
            5 * cell
        } else {
            6 * cell
        }) by (nonlinear_arith)
            requires
                shape.left_count == if row == 3 {
                    5int
                } else {
                    6int
                },
        ;
    }
    let right = col >= shape.left_count && col < shape.left_count + shape.right_count;
    let x = if col < shape.left_count {
        MARGIN + shape.left_offset * cell + c * cell
    } else if right {
        base + shape.right_offset * cell + (c - shape.left_count as i64) * cell
    } else {
        base + (c - shape.left_count as i64) * cell
    };
    let blank = is_empty_key(label.as_str());
    PlacedKey {
        x,
        y: top + row as i64 * (KEY_HEIGHT + KEY_SPACING),
        width: key_width,
        height: KEY_HEIGHT,
        class: classify(label.as_str(), layer_index),
        label: label.clone(),
        drawn: !(right && blank && row < GEOMETRY_ROWS - 1),
    }
}

fn place_row(
    row_keys: &Vec<String>,
    row: usize,
    layer_index: usize,
    top: i64,
    key_width: i64,
) -> (out: Vec<PlacedKey>)
    requires
        row < GEOMETRY_ROWS,
        row_keys.len() <= LIMIT,
        0 <= top <= i64::MAX / 2,
        MIN_KEY_WIDTH <= key_width <= LIMIT * CHAR_WIDTH + 2 * KEY_PADDING,
    ensures
        placed_row_view(out@) == place_row_spec(
            row_view(row_keys@),
            row as int,
            layer_index,
            top as int,
            key_width as int,
        ),
{
    let mut out: Vec<PlacedKey> = Vec::new();
    let mut col: usize = 0;
    while col < row_keys.len()
        invariant
            col <= row_keys.len() <= LIMIT,
            row < GEOMETRY_ROWS,
            0 <= top <= i64::MAX / 2,
            MIN_KEY_WIDTH <= key_width <= LIMIT * CHAR_WIDTH + 2 * KEY_PADDING,
            out.len() == col,
            forall|k: int|
                0 <= k < col ==> (#[trigger] out[k])@ == place_key_spec(
                    row_keys[k]@,
                    row as int,
                    k,
                    layer_index,
                    top as int,
                    key_width as int,
                ),
        decreases row_keys.len() - col,
    {
        let key = place_key(&row_keys[col], row, col, layer_index, top, key_width);
        out.push(key);
        col += 1;
    }
    out
}

fn place_layer(layer: &Layer, i: usize, key_width: i64) -> (out: PlacedLayer)
    requires
        i < LIMIT,
        grid_within(layer@.keys),
        MIN_KEY_WIDTH <= key_width <= LIMIT * CHAR_WIDTH + 2 * KEY_PADDING,
    ensures
        out@ == place_layer_spec(layer@, i as int, key_width as int),
{
    let per_layer: i64 = TITLE_HEIGHT + GEOMETRY_ROWS as i64 * (KEY_HEIGHT + KEY_SPACING)
        + LAYER_SPACING;
    let n = i as i64;
    assert(n * per_layer == n * 420) by (nonlinear_arith)
        requires
            per_layer == 420,
    ;
    let title = MARGIN + n * per_layer;
    let top = title + TITLE_HEIGHT;
    let count = if layer.keys.len() < GEOMETRY_ROWS {
        layer.keys.len()
    } else {
        GEOMETRY_ROWS
    };
    let mut rows: Vec<Vec<PlacedKey>> = Vec::new();
    let mut r: usize = 0;
    while r < count
        invariant
            r <= count <= GEOMETRY_ROWS,
            count <= layer.keys.len(),
            grid_within(layer@.keys),
            0 <= top <= i64::MAX / 2,
            MIN_KEY_WIDTH <= key_width <= LIMIT * CHAR_WIDTH + 2 * KEY_PADDING,
            rows.len() == r,
            forall|k: int|
                0 <= k < r ==> placed_row_view((#[trigger] rows[k])@) == place_row_spec(
                    layer@.keys[k],
                    k,
                    layer.index,
                    top as int,
                    key_width as int,
                ),
        decreases count - r,
    {
        assert(layer@.keys[r as int] == row_view(layer.keys[r as int]@));
        let placed = place_row(&layer.keys[r], r, layer.index, top, key_width);
        rows.push(placed);
        r += 1;
    }
    let mut text = "Layer ".to_owned();
    push_decimal(&mut text, layer.index);
    let out = PlacedLayer {
        index: layer.index,
        title: text,
        title_x: MARGIN,
        title_y: title,
        rows,
    };
    assert(out@.rows =~= place_layer_spec(layer@, i as int, key_width as int).rows);
    out
}

/// Lays out the layers: the canvas, and every key of the rows that the
/// keyboard has, with its place, size, category and label. `None` where there
/// are more layers, more keys in a row or more characters in a label than
/// the limit.
pub fn layout(layers: &[Layer]) -> (r: Option<Layout>)
    ensures
        r is Some <==> fits(layers_view(layers@)),
        r matches Some(l) ==> l@ == layout_spec(layers_view(layers@)),
{
    let ghost all = layers_view(layers@);
    if layers.len() > LIMIT {
        return None;
    }
    let (longest, within) = measure(layers);
    let label_len = match longest {
        Some(n) => n,
        None => DEFAULT_LABEL_LEN,
    };
    if !within || label_len > LIMIT {
        return None;
    }
    let key_width = key_width(label_len);
    let mut placed: Vec<PlacedLayer> = Vec::new();
    let mut i: usize = 0;
    while i < layers.len()
        invariant
            i <= layers.len() <= LIMIT,
            all == layers_view(layers@),
            rows_within(all),
            MIN_KEY_WIDTH <= key_width <= LIMIT * CHAR_WIDTH + 2 * KEY_PADDING,
            placed.len() == i,
            forall|k: int|
                0 <= k < i ==> (#[trigger] placed[k])@ == place_layer_spec(
                    all[k],
                    k,
                    key_width as int,
                ),
        decreases layers.len() - i,
    {
        assert(all[i as int] == layers[i as int]@);
        let layer = place_layer(&layers[i], i, key_width);
        placed.push(layer);
        i += 1;
    }
    let out = Layout {
        width: canvas_width(key_width),
        height: canvas_height(layers.len()),
        key_width,
        layers: placed,
    };
    assert(out@.layers =~= layout_spec(all).layers);
    Some(out)
}

} // verus!
