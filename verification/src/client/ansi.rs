//! Rendering a row of cells as ANSI escape sequences, with OSC 8 hyperlinks.

use vstd::prelude::*;

use crate::cell::{Cell, CellFlags, Color, ColorKind};
use crate::client::compose::NO_LINK;
use std::collections::HashMap;

use crate::client::links::url_map;
use crate::config::keys::{all_digits, digits_value, is_digit, lemma_decimal_digits};
use crate::text::{decimal, push_char, push_decimal, push_str};

verus! {

/// OSC 8 sequence that ends the current hyperlink.
pub const CLOSE_HYPERLINK: &'static str = "\x1b]8;;\x1b\\";

/// Select Graphic Rendition reset.
pub const SGR_RESET: &'static str = "\x1b[0m";

/// The SGR parameters joined by `;`.
pub open spec fn join_codes(codes: Seq<u8>) -> Seq<char>
    decreases codes.len(),
{
    if codes.len() == 0 {
        Seq::empty()
    } else if codes.len() == 1 {
        decimal(codes[0] as nat)
    } else {
        join_codes(codes.drop_last()) + seq![';'] + decimal(codes.last() as nat)
    }
}

/// One SGR sequence with the given parameters, or nothing for none.
pub open spec fn sgr(codes: Seq<u8>) -> Seq<char> {
    if codes.len() == 0 {
        Seq::empty()
    } else {
        "\x1b["@ + join_codes(codes) + seq!['m']
    }
}

/// A code if the flag is set.
pub open spec fn code_if(flags: CellFlags, flag: u8, code: u8) -> Seq<u8> {
    if flags.has(flag) {
        seq![code]
    } else {
        Seq::empty()
    }
}

/// The SGR parameters that reset and then set the given attributes.
pub open spec fn flag_codes(flags: CellFlags) -> Seq<u8> {
    seq![0u8] + code_if(flags, CellFlags::BOLD, 1) + code_if(flags, CellFlags::DIM, 2) + code_if(
        flags,
        CellFlags::ITALIC,
        3,
    ) + code_if(flags, CellFlags::UNDERLINE, 4) + code_if(flags, CellFlags::BLINK, 5) + code_if(
        flags,
        CellFlags::INVERSE,
        7,
    ) + code_if(flags, CellFlags::HIDDEN, 8) + code_if(flags, CellFlags::STRIKETHROUGH, 9)
}

/// The sequence selecting a foreground (`base` 30) or background (`base` 40)
/// colour: the default colour, one of the 16 standard colours by number,
/// another palette entry, or a 24-bit colour.
pub open spec fn color_seq(color: Color, base: nat) -> Seq<char> {
    match color.kind {
        ColorKind::Default => "\x1b["@ + decimal(base + 9) + seq!['m'],
        ColorKind::Indexed => if color.r < 8 {
            "\x1b["@ + decimal((base + color.r) as nat) + seq!['m']
        } else if color.r < 16 {
            "\x1b["@ + decimal((base + 60 + color.r - 8) as nat) + seq!['m']
        } else {
            "\x1b["@ + decimal(base + 8) + ";5;"@ + decimal(color.r as nat) + seq!['m']
        },
        ColorKind::Rgb => "\x1b["@ + decimal(base + 8) + ";2;"@ + decimal(color.r as nat) + seq![';']
            + decimal(color.g as nat) + seq![';'] + decimal(color.b as nat) + seq!['m'],
    }
}

/// What the renderer has last emitted.
pub struct AnsiState {
    pub fg: Color,
    pub bg: Color,
    pub flags: CellFlags,
    pub open: u32,
}

/// The state after the leading reset.
pub open spec fn initial_state() -> AnsiState {
    AnsiState {
        fg: Color::spec_default_color(),
        bg: Color::spec_default_color(),
        flags: CellFlags { bits: 0 },
        open: NO_LINK,
    }
}

/// The link of column `col`: its id when that id has a URL, else none.
pub open spec fn link_of(col: int, ids: Seq<u32>, urls: Map<u32, Seq<char>>) -> u32 {
    if col < ids.len() && ids[col] != NO_LINK && urls.contains_key(ids[col]) {
        ids[col]
    } else {
        NO_LINK
    }
}

/// The OSC 8 sequence that opens link `id` to `url`.
pub open spec fn open_link_seq(id: u32, url: Seq<char>) -> Seq<char> {
    "\x1b]8;id="@ + decimal(id as nat) + seq![';'] + url + "\x1b\\"@
}

/// The OSC 8 output when the link changes from `open` to `link`.
pub open spec fn link_switch(open: u32, link: u32, urls: Map<u32, Seq<char>>) -> Seq<char> {
    if link != open {
        (if open != NO_LINK {
            CLOSE_HYPERLINK@
        } else {
            Seq::empty()
        }) + (if link != NO_LINK {
            open_link_seq(link, urls[link])
        } else {
            Seq::empty()
        })
    } else {
        Seq::empty()
    }
}

/// The SGR output for a cell: when its attributes differ from the current
/// ones, a reset and its attributes (which also resets both colours); then the
/// colours that differ, each after any parameters still pending.
pub open spec fn style_seq(st: AnsiState, cell: Cell) -> Seq<char> {
    let changed = cell.flags != st.flags;
    let codes0 = if changed { flag_codes(cell.flags) } else { Seq::empty() };
    let fg0 = if changed { Color::spec_default_color() } else { st.fg };
    let bg0 = if changed { Color::spec_default_color() } else { st.bg };
    let fg_out = if cell.fg != fg0 { sgr(codes0) + color_seq(cell.fg, 30) } else { Seq::empty() };
    let codes1 = if cell.fg != fg0 { Seq::empty() } else { codes0 };
    let bg_out = if cell.bg != bg0 { sgr(codes1) + color_seq(cell.bg, 40) } else { Seq::empty() };
    let codes2 = if cell.bg != bg0 { Seq::empty() } else { codes1 };
    fg_out + bg_out + sgr(codes2)
}

/// The state and output after the first cells of a row.
#[verifier::opaque]
pub open spec fn ansi_body(cells: Seq<Cell>, ids: Seq<u32>, urls: Map<u32, Seq<char>>) -> (AnsiState, Seq<char>)
    decreases cells.len(),
{
    if cells.len() == 0 {
        (initial_state(), Seq::empty())
    } else {
        let (st, out) = ansi_body(cells.drop_last(), ids, urls);
        let cell = cells.last();
        let link = link_of(cells.len() - 1, ids, urls);
        (
            AnsiState { fg: cell.fg, bg: cell.bg, flags: cell.flags, open: link },
            out + link_switch(st.open, link, urls) + style_seq(st, cell) + seq![cell.c],
        )
    }
}

/// A row rendered: a reset, each cell with the escapes that change what
/// differs from the cell before, an open link closed, and a final reset.
pub open spec fn ansi_row(cells: Seq<Cell>, ids: Seq<u32>, urls: Map<u32, Seq<char>>) -> Seq<char> {
    let (st, body) = ansi_body(cells, ids, urls);
    SGR_RESET@ + body + (if st.open != NO_LINK {
        CLOSE_HYPERLINK@
    } else {
        Seq::empty()
    }) + SGR_RESET@
}

/// One more cell extends the rendering of a row by that cell's output.
proof fn lemma_ansi_step(cells: Seq<Cell>, ids: Seq<u32>, urls: Map<u32, Seq<char>>, col: int)
    requires
        0 <= col < cells.len(),
    ensures
        ansi_body(cells.take(col + 1), ids, urls).0 == (AnsiState {
            fg: cells[col].fg,
            bg: cells[col].bg,
            flags: cells[col].flags,
            open: link_of(col, ids, urls),
        }),
        ansi_body(cells.take(col + 1), ids, urls).1 == ansi_body(cells.take(col), ids, urls).1
            + link_switch(ansi_body(cells.take(col), ids, urls).0.open, link_of(col, ids, urls), urls)
            + style_seq(ansi_body(cells.take(col), ids, urls).0, cells[col]) + seq![cells[col].c],
{
    reveal(ansi_body);
    assert(cells.take(col + 1).drop_last() =~= cells.take(col));
    assert(cells.take(col + 1).last() == cells[col]);
}

/// No cells render to nothing.
proof fn lemma_ansi_empty(cells: Seq<Cell>, ids: Seq<u32>, urls: Map<u32, Seq<char>>)
    requires
        cells.len() == 0,
    ensures
        ansi_body(cells, ids, urls) == (initial_state(), Seq::<char>::empty()),
{
    reveal(ansi_body);
}

/// Append one SGR sequence with the given parameters (nothing for none).
fn push_sgr(out: &mut String, codes: &Vec<u8>)
    ensures
        final(out)@ == old(out)@ + sgr(codes@),
{
    if codes.len() == 0 {
        assert(old(out)@ + sgr(codes@) =~= old(out)@);
        return ;
    }
    push_str(out, "\x1b[");
    let ghost start = out@;
    let mut i: usize = 0;
    while i < codes.len()
        invariant
            i <= codes@.len(),
            out@ == start + join_codes(codes@.take(i as int)),
        decreases codes@.len() - i,
    {
        if i > 0 {
            push_char(out, ';');
        }
        push_decimal(out, codes[i] as u64);
        proof {
            let t = codes@.take(i + 1);
            assert(t.drop_last() =~= codes@.take(i as int));
            if i == 0 {
                assert(join_codes(codes@.take(0)) =~= Seq::empty());
            }
        }
        i = i + 1;
        assert(out@ =~= start + join_codes(codes@.take(i as int)));
    }
    assert(codes@.take(i as int) =~= codes@);
    push_char(out, 'm');
    assert(out@ =~= old(out)@ + sgr(codes@));
}

/// The SGR parameters that reset and then set the given attributes.
fn flag_codes_of(flags: CellFlags) -> (codes: Vec<u8>)
    ensures
        codes@ == flag_codes(flags),
{
    let mut codes: Vec<u8> = Vec::new();
    codes.push(0);
    push_code_if(&mut codes, flags, CellFlags::BOLD, 1);
    push_code_if(&mut codes, flags, CellFlags::DIM, 2);
    push_code_if(&mut codes, flags, CellFlags::ITALIC, 3);
    push_code_if(&mut codes, flags, CellFlags::UNDERLINE, 4);
    push_code_if(&mut codes, flags, CellFlags::BLINK, 5);
    push_code_if(&mut codes, flags, CellFlags::INVERSE, 7);
    push_code_if(&mut codes, flags, CellFlags::HIDDEN, 8);
    push_code_if(&mut codes, flags, CellFlags::STRIKETHROUGH, 9);
    assert(codes@ =~= flag_codes(flags));
    codes
}

/// Append `code` if `flag` is set.
fn push_code_if(codes: &mut Vec<u8>, flags: CellFlags, flag: u8, code: u8)
    ensures
        final(codes)@ == old(codes)@ + code_if(flags, flag, code),
{
    if flags.contains(flag) {
        codes.push(code);
    }
    assert(codes@ =~= old(codes)@ + code_if(flags, flag, code));
}

/// Append the sequence selecting `color`, foreground for `base` 30 and
/// background for `base` 40.
fn push_color(out: &mut String, color: Color, base: u32)
    requires
        base == 30 || base == 40,
    ensures
        final(out)@ == old(out)@ + color_seq(color, base as nat),
{
    match color.kind {
        ColorKind::Default => {
            push_str(out, "\x1b[");
            push_decimal(out, (base + 9) as u64);
            push_char(out, 'm');
        },
        ColorKind::Indexed => {
            push_str(out, "\x1b[");
            if color.r < 8 {
                push_decimal(out, (base + color.r as u32) as u64);
                push_char(out, 'm');
            } else if color.r < 16 {
                push_decimal(out, (base + 60 + color.r as u32 - 8) as u64);
                push_char(out, 'm');
            } else {
                push_decimal(out, (base + 8) as u64);
                push_str(out, ";5;");
                push_decimal(out, color.r as u64);
                push_char(out, 'm');
            }
        },
        ColorKind::Rgb => {
            push_str(out, "\x1b[");
            push_decimal(out, (base + 8) as u64);
            push_str(out, ";2;");
            push_decimal(out, color.r as u64);
            push_char(out, ';');
            push_decimal(out, color.g as u64);
            push_char(out, ';');
            push_decimal(out, color.b as u64);
            push_char(out, 'm');
        },
    }
    assert(out@ =~= old(out)@ + color_seq(color, base as nat));
}

/// Append any pending SGR parameters, then the foreground colour.
fn append_fg_color(output: &mut String, pending_codes: &Vec<u8>, color: Color)
    ensures
        final(output)@ == old(output)@ + sgr(pending_codes@) + color_seq(color, 30),
{
    push_sgr(output, pending_codes);
    push_color(output, color, 30);
    assert(output@ =~= old(output)@ + sgr(pending_codes@) + color_seq(color, 30));
}

/// Append any pending SGR parameters, then the background colour.
fn append_bg_color(output: &mut String, pending_codes: &Vec<u8>, color: Color)
    ensures
        final(output)@ == old(output)@ + sgr(pending_codes@) + color_seq(color, 40),
{
    push_sgr(output, pending_codes);
    push_color(output, color, 40);
    assert(output@ =~= old(output)@ + sgr(pending_codes@) + color_seq(color, 40));
}

/// Append one cell: the link change, the style change, and the character.
fn emit_cell(output: &mut String, st: &mut AnsiState, cell: Cell, link_id: u32, urls: &HashMap<u32, String>)
    requires
        link_id == NO_LINK || url_map(urls@).contains_key(link_id),
    ensures
        final(output)@ == old(output)@ + link_switch(old(st).open, link_id, url_map(urls@)) + style_seq(
            *old(st),
            cell,
        ) + seq![cell.c],
        *final(st) == (AnsiState { fg: cell.fg, bg: cell.bg, flags: cell.flags, open: link_id }),
{
    emit_link_switch(output, st.open, link_id, urls);
    let ghost mid = output@;
    emit_style(output, st, cell);
    push_char(output, cell.c);
    st.open = link_id;
    assert(output@ =~= old(output)@ + link_switch(old(st).open, link_id, url_map(urls@)) + style_seq(
        *old(st),
        cell,
    ) + seq![cell.c]);
}

/// Append the OSC 8 output for the link changing from `open` to `link_id`.
fn emit_link_switch(output: &mut String, open: u32, link_id: u32, urls: &HashMap<u32, String>)
    requires
        link_id == NO_LINK || url_map(urls@).contains_key(link_id),
    ensures
        final(output)@ == old(output)@ + link_switch(open, link_id, url_map(urls@)),
{
    if link_id != open {
        if open != NO_LINK {
            push_str(output, CLOSE_HYPERLINK);
        }
        let ghost mid = output@;
        if link_id != NO_LINK {
            push_str(output, "\x1b]8;id=");
            push_decimal(output, link_id as u64);
            push_char(output, ';');
            match urls.get(&link_id) {
                Some(u) => push_str(output, u.as_str()),
                None => {},
            }
            push_str(output, "\x1b\\");
            assert(output@ =~= mid + open_link_seq(link_id, url_map(urls@)[link_id]));
        }
    }
    assert(output@ =~= old(output)@ + link_switch(open, link_id, url_map(urls@)));
}

/// Append the SGR output that moves the style from `st` to `cell`'s, and
/// record that style in `st`.
fn emit_style(output: &mut String, st: &mut AnsiState, cell: Cell)
    ensures
        final(output)@ == old(output)@ + style_seq(*old(st), cell),
        final(st).fg == cell.fg,
        final(st).bg == cell.bg,
        final(st).flags == cell.flags,
        final(st).open == old(st).open,
{
    let mut sgr_codes: Vec<u8> = Vec::new();
    if cell.flags != st.flags {
        sgr_codes = flag_codes_of(cell.flags);
        st.fg = Color::default_color();
        st.bg = Color::default_color();
        st.flags = cell.flags;
    }
    let ghost o1 = output@;
    if cell.fg != st.fg {
        append_fg_color(output, &sgr_codes, cell.fg);
        sgr_codes = Vec::new();
        st.fg = cell.fg;
    }
    let ghost o2 = output@;
    if cell.bg != st.bg {
        append_bg_color(output, &sgr_codes, cell.bg);
        sgr_codes = Vec::new();
        st.bg = cell.bg;
    }
    let ghost o3 = output@;
    push_sgr(output, &sgr_codes);
    assert(output@ =~= old(output)@ + style_seq(*old(st), cell));
}

/// Render cells as ANSI, with no hyperlinks.
pub fn cells_to_ansi(cells: &[Cell]) -> (s: String)
    ensures
        s@ == ansi_row(cells@, Seq::empty(), Map::empty()),
{
    let no_ids: Vec<u32> = Vec::new();
    let no_urls: HashMap<u32, String> = HashMap::new();
    assert(url_map(no_urls@) =~= Map::<u32, Seq<char>>::empty());
    assert(no_ids@ =~= Seq::<u32>::empty());
    cells_to_ansi_with_links(cells, no_ids.as_slice(), &no_urls)
}

/// Render cells as ANSI, wrapping linked runs in OSC 8. `link_ids` runs
/// parallel to `cells`; an id is a link only when `urls` has a URL for it.
/// The id goes out as the OSC 8 `id=` parameter, so the host terminal joins
/// the pieces of one link split over rows.
pub fn cells_to_ansi_with_links(cells: &[Cell], link_ids: &[u32], urls: &HashMap<u32, String>) -> (s: String)
    ensures
        s@ == ansi_row(cells@, link_ids@, url_map(urls@)),
{
    let mut output = String::new();
    let mut current_fg = Color::default_color();
    let mut current_bg = Color::default_color();
    let mut current_flags = CellFlags::empty();
    push_str(&mut output, SGR_RESET);
    let mut open_link = NO_LINK;
    let ghost m = url_map(urls@);
    let mut col: usize = 0;
    proof {
        lemma_ansi_empty(cells@.take(0), link_ids@, m);
        assert(output@ =~= SGR_RESET@ + Seq::<char>::empty());
    }
    while col < cells.len()
        invariant
            col <= cells@.len(),
            m == url_map(urls@),
            ansi_body(cells@.take(col as int), link_ids@, m).0 == (AnsiState {
                fg: current_fg,
                bg: current_bg,
                flags: current_flags,
                open: open_link,
            }),
            output@ == SGR_RESET@ + ansi_body(cells@.take(col as int), link_ids@, m).1,
        decreases cells@.len() - col,
    {
        let cell = cells[col];
        let link_id = if col < link_ids.len() && link_ids[col] != NO_LINK && urls.contains_key(&link_ids[col]) {
            link_ids[col]
        } else {
            NO_LINK
        };
        assert(link_id == link_of(col as int, link_ids@, m));
        let mut st = AnsiState { fg: current_fg, bg: current_bg, flags: current_flags, open: open_link };
        emit_cell(&mut output, &mut st, cell, link_id, urls);
        current_fg = st.fg;
        current_bg = st.bg;
        current_flags = st.flags;
        open_link = st.open;
        proof {
            lemma_ansi_step(cells@, link_ids@, m, col as int);
        }
        col = col + 1;
    }
    assert(cells@.take(col as int) =~= cells@);
    let ghost body = ansi_body(cells@, link_ids@, m);
    if open_link != NO_LINK {
        push_str(&mut output, CLOSE_HYPERLINK);
    }
    push_str(&mut output, SGR_RESET);
    assert(output@ =~= ansi_row(cells@, link_ids@, m));
    output
}

/// The run of ASCII digits at the start of `s`.
pub open spec fn leading_digits(s: Seq<char>) -> Seq<char>
    decreases s.len(),
{
    if s.len() > 0 && is_digit(s[0]) {
        seq![s[0]] + leading_digits(s.drop_first())
    } else {
        Seq::empty()
    }
}

/// The first parameter of a CSI sequence `ESC [ n ...`: the number right
/// after the introducer.
pub open spec fn sgr_param(s: Seq<char>) -> int {
    digits_value(leading_digits(s.skip(2)))
}

proof fn lemma_leading_digits(a: Seq<char>, b: Seq<char>)
    requires
        all_digits(a),
        b.len() > 0,
        !is_digit(b[0]),
    ensures
        leading_digits(a + b) == a,
    decreases a.len(),
{
    if a.len() == 0 {
        assert(a + b =~= b);
    } else {
        assert((a + b).drop_first() =~= a.drop_first() + b);
        assert(is_digit(a[0]));
        lemma_leading_digits(a.drop_first(), b);
        assert(seq![a[0]] + a.drop_first() =~= a);
    }
}

proof fn lemma_param_of(n: nat, rest: Seq<char>)
    requires
        rest.len() > 0,
        !is_digit(rest[0]),
    ensures
        sgr_param("\x1b["@ + decimal(n) + rest) == n,
{
    reveal_strlit("\x1b[");
    lemma_decimal_digits(n);
    assert(("\x1b["@ + decimal(n) + rest).skip(2) =~= decimal(n) + rest);
    lemma_leading_digits(decimal(n), rest);
}

/// A colour's escape sequence sets the layer it is asked for: the
/// background's first parameter is one of SGR's background codes (40 to 49,
/// 100 to 107) and the foreground's one of its foreground codes (30 to 39,
/// 90 to 97), so a background colour is never sent as a text colour.
pub proof fn law_color_sets_its_layer(c: Color, d: Color)
    ensures
        40 <= sgr_param(color_seq(c, 40)) <= 49 || 100 <= sgr_param(color_seq(c, 40)) <= 107,
        30 <= sgr_param(color_seq(c, 30)) <= 39 || 90 <= sgr_param(color_seq(c, 30)) <= 97,
        color_seq(c, 40) != color_seq(d, 30),
{
    reveal_strlit(";5;");
    reveal_strlit(";2;");
    lemma_color_param(c, 40);
    lemma_color_param(c, 30);
    lemma_color_param(d, 30);
}

proof fn lemma_color_param(c: Color, base: nat)
    requires
        base == 30 || base == 40,
    ensures
        sgr_param(color_seq(c, base)) == match c.kind {
            ColorKind::Default => base + 9int,
            ColorKind::Indexed => if c.r < 8 {
                base + c.r
            } else if c.r < 16 {
                base + 60 + c.r - 8
            } else {
                base + 8int
            },
            ColorKind::Rgb => base + 8int,
        },
{
    reveal_strlit(";5;");
    reveal_strlit(";2;");
    match c.kind {
        ColorKind::Default => lemma_param_of(base + 9, seq!['m']),
        ColorKind::Indexed => if c.r < 8 {
            lemma_param_of((base + c.r) as nat, seq!['m']);
        } else if c.r < 16 {
            lemma_param_of((base + 60 + c.r - 8) as nat, seq!['m']);
        } else {
            let rest = ";5;"@ + decimal(c.r as nat) + seq!['m'];
            assert(color_seq(c, base) =~= "\x1b["@ + decimal(base + 8) + rest);
            lemma_param_of(base + 8, rest);
        },
        ColorKind::Rgb => {
            let rest = ";2;"@ + decimal(c.r as nat) + seq![';'] + decimal(c.g as nat) + seq![';'] + decimal(
                c.b as nat,
            ) + seq!['m'];
            assert(color_seq(c, base) =~= "\x1b["@ + decimal(base + 8) + rest);
            lemma_param_of(base + 8, rest);
        },
    }
}

} // verus!
