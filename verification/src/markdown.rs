//! A small Markdown renderer for the preview pane.  Block structures (headings,
//! list items, code blocks, paragraphs) become lines with a style, and every line
//! is cut into pieces of at most `width` characters, so that scrolling works on
//! what is shown.  The Markdown itself is read by `pulldown_cmark`.
use vstd::prelude::*;
use crate::text::{append_str, chars_of, string_from_chars};
use pulldown_cmark::{Event, Tag, TagEnd};

verus! {

/// A Markdown event, as far as the renderer tells events apart.
#[derive(Clone, Debug, PartialEq, Eq)]
pub enum MdEvent {
    HeadingStart,
    HeadingEnd,
    CodeBlockStart,
    CodeBlockEnd,
    ItemStart,
    ItemEnd,
    ParagraphEnd,
    Text(String),
    Code(String),
    SoftBreak,
    HardBreak,
    Other,
}

/// An event with its text as a sequence of characters.
pub enum MdEventView {
    HeadingStart,
    HeadingEnd,
    CodeBlockStart,
    CodeBlockEnd,
    ItemStart,
    ItemEnd,
    ParagraphEnd,
    Text(Seq<char>),
    Code(Seq<char>),
    SoftBreak,
    HardBreak,
    Other,
}

impl View for MdEvent {
    type V = MdEventView;

    open spec fn view(&self) -> MdEventView {
        match self {
            MdEvent::HeadingStart => MdEventView::HeadingStart,
            MdEvent::HeadingEnd => MdEventView::HeadingEnd,
            MdEvent::CodeBlockStart => MdEventView::CodeBlockStart,
            MdEvent::CodeBlockEnd => MdEventView::CodeBlockEnd,
            MdEvent::ItemStart => MdEventView::ItemStart,
            MdEvent::ItemEnd => MdEventView::ItemEnd,
            MdEvent::ParagraphEnd => MdEventView::ParagraphEnd,
            MdEvent::Text(t) => MdEventView::Text(t@),
            MdEvent::Code(t) => MdEventView::Code(t@),
            MdEvent::SoftBreak => MdEventView::SoftBreak,
            MdEvent::HardBreak => MdEventView::HardBreak,
            MdEvent::Other => MdEventView::Other,
        }
    }
}

/// The views of a list of events.
pub open spec fn events_view(evs: Seq<MdEvent>) -> Seq<MdEventView> {
    evs.map_values(|e: MdEvent| e@)
}

/// How a rendered line is shown: headings bold in cyan, code in gray, the rest plain.
#[derive(Clone, Copy, Debug, PartialEq, Eq, Structural)]
pub enum LineStyle {
    Heading,
    Code,
    Plain,
}

/// The block that the text being collected belongs to.
#[derive(Clone, Copy, Debug, PartialEq, Eq, Structural)]
pub enum Block {
    Paragraph,
    Heading,
    Code,
    ListItem,
}

/// The style of a block's lines.
pub open spec fn style_of(b: Block) -> LineStyle {
    match b {
        Block::Heading => LineStyle::Heading,
        Block::Code => LineStyle::Code,
        _ => LineStyle::Plain,
    }
}

/// Lines finished so far, the text of the line being collected, and its block.
pub struct Collected {
    pub lines: Seq<(Seq<char>, LineStyle)>,
    pub cur: Seq<char>,
    pub block: Block,
}

/// Before anything is read.
pub open spec fn collect_start() -> Collected {
    Collected { lines: Seq::empty(), cur: Seq::empty(), block: Block::Paragraph }
}

/// Ends the line being collected, when it holds any text.
pub open spec fn flush(st: Collected) -> Collected {
    if st.cur.len() > 0 {
        Collected {
            lines: st.lines.push((st.cur, style_of(st.block))),
            cur: Seq::empty(),
            block: st.block,
        }
    } else {
        st
    }
}

/// The marker that starts a list item: a bullet and a space.
pub open spec fn bullet() -> Seq<char> {
    seq!['\u{2022}', ' ']
}

/// Ends a block that is followed by an empty line.
pub open spec fn close_with_gap(st: Collected) -> Collected {
    let f = flush(st);
    Collected {
        lines: f.lines.push((Seq::empty(), LineStyle::Plain)),
        cur: f.cur,
        block: Block::Paragraph,
    }
}

/// What one event does to the lines collected so far.
pub open spec fn step(st: Collected, ev: MdEventView) -> Collected {
    match ev {
        MdEventView::HeadingStart => Collected { block: Block::Heading, ..flush(st) },
        MdEventView::HeadingEnd => close_with_gap(st),
        MdEventView::CodeBlockStart => Collected { block: Block::Code, ..flush(st) },
        MdEventView::CodeBlockEnd => close_with_gap(st),
        MdEventView::ItemStart => Collected {
            cur: flush(st).cur + bullet(),
            block: Block::ListItem,
            ..flush(st)
        },
        MdEventView::ItemEnd => Collected { block: Block::Paragraph, ..flush(st) },
        MdEventView::ParagraphEnd => flush(st),
        MdEventView::Text(t) => Collected { cur: st.cur + t, ..st },
        MdEventView::Code(t) => Collected { cur: st.cur + t, ..st },
        MdEventView::SoftBreak => Collected {
            lines: st.lines.push((st.cur, style_of(st.block))),
            cur: Seq::empty(),
            block: st.block,
        },
        MdEventView::HardBreak => Collected {
            lines: st.lines.push((st.cur, style_of(st.block))),
            cur: Seq::empty(),
            block: st.block,
        },
        MdEventView::Other => st,
    }
}

/// The state after reading all of `evs`.
pub open spec fn collect(evs: Seq<MdEventView>) -> Collected
    decreases evs.len(),
{
    if evs.len() == 0 {
        collect_start()
    } else {
        step(collect(evs.drop_last()), evs.last())
    }
}

/// The styled lines of a document: what was collected, with the last line ended.
pub open spec fn block_lines(evs: Seq<MdEventView>) -> Seq<(Seq<char>, LineStyle)> {
    flush(collect(evs)).lines
}

/// A line cut into pieces of `width` characters.  With width 0 the line stays whole;
/// otherwise an empty line gives no piece at all.
pub open spec fn wrap(s: Seq<char>, width: nat) -> Seq<Seq<char>>
    decreases s.len(),
{
    if width == 0 {
        seq![s]
    } else if s.len() == 0 {
        Seq::empty()
    } else if s.len() <= width {
        seq![s]
    } else {
        seq![s.take(width as int)] + wrap(s.skip(width as int), width)
    }
}

/// Every line of `lines` cut at `width`, each piece keeping its line's style.
pub open spec fn wrap_all(lines: Seq<(Seq<char>, LineStyle)>, width: nat) -> Seq<
    (Seq<char>, LineStyle),
>
    decreases lines.len(),
{
    if lines.len() == 0 {
        Seq::empty()
    } else {
        let (s, st) = lines.last();
        wrap_all(lines.drop_last(), width) + wrap(s, width).map_values(
            |p: Seq<char>| (p, st),
        )
    }
}

/// Every piece of a wrapped line holds between one and `width` characters.
pub proof fn lemma_wrap_pieces_fit(s: Seq<char>, width: nat)
    requires
        width > 0,
    ensures
        forall|i: int|
            0 <= i < wrap(s, width).len() ==> 0 < #[trigger] wrap(s, width)[i].len() <= width,
    decreases s.len(),
{
    if s.len() > width {
        lemma_wrap_pieces_fit(s.skip(width as int), width);
        let rest = wrap(s.skip(width as int), width);
        assert forall|i: int| 0 <= i < wrap(s, width).len() implies 0 < #[trigger] wrap(
            s,
            width,
        )[i].len() <= width by {
            if i > 0 {
                assert(wrap(s, width)[i] == rest[i - 1]);
            }
        }
    }
}

/// Every piece of a wrapped document holds between one and `width` characters.
pub proof fn lemma_wrap_all_fit(lines: Seq<(Seq<char>, LineStyle)>, width: nat)
    requires
        width > 0,
    ensures
        forall|i: int|
            0 <= i < wrap_all(lines, width).len() ==> 0 < #[trigger] wrap_all(lines, width)[i].0.len()
                <= width,
    decreases lines.len(),
{
    if lines.len() > 0 {
        let (s, st) = lines.last();
        lemma_wrap_all_fit(lines.drop_last(), width);
        lemma_wrap_pieces_fit(s, width);
        let a = wrap_all(lines.drop_last(), width);
        let b = wrap(s, width).map_values(|p: Seq<char>| (p, st));
        assert forall|i: int| 0 <= i < wrap_all(lines, width).len() implies 0
            < #[trigger] wrap_all(lines, width)[i].0.len() <= width by {
            if i >= a.len() {
                assert(wrap_all(lines, width)[i] == b[i - a.len()]);
                assert(b[i - a.len()].0 == wrap(s, width)[i - a.len()]);
            } else {
                assert(wrap_all(lines, width)[i] == a[i]);
            }
        }
    }
}

/// With a positive width, every line the preview shows holds at least one and at
/// most `width` characters, whatever the Markdown.
pub proof fn law_rendered_lines_fit(evs: Seq<MdEventView>, width: nat)
    requires
        width > 0,
    ensures
        forall|i: int|
            0 <= i < rendered(evs, width).len() ==> 0 < #[trigger] rendered(evs, width)[i].0.len()
                <= width,
{
    lemma_wrap_all_fit(block_lines(evs), width);
}

/// The pieces `ps` written one after the other.
pub open spec fn concat_all(ps: Seq<Seq<char>>) -> Seq<char>
    decreases ps.len(),
{
    if ps.len() == 0 {
        Seq::empty()
    } else {
        ps[0] + concat_all(ps.drop_first())
    }
}

/// Joined back together, the pieces of a wrapped line give the line.
pub proof fn law_wrap_keeps_text(s: Seq<char>, width: nat)
    requires
        width > 0,
    ensures
        concat_all(wrap(s, width)) == s,
    decreases s.len(),
{
    if s.len() == 0 {
    } else if s.len() <= width {
        assert(wrap(s, width) == seq![s]);
        assert(seq![s].drop_first() =~= Seq::<Seq<char>>::empty());
        assert(concat_all(Seq::<Seq<char>>::empty()) == Seq::<char>::empty());
        assert(concat_all(seq![s]) == s + Seq::<char>::empty());
        assert(s + Seq::<char>::empty() =~= s);
    } else {
        let head = s.take(width as int);
        let rest = wrap(s.skip(width as int), width);
        law_wrap_keeps_text(s.skip(width as int), width);
        assert(wrap(s, width) == seq![head] + rest);
        assert((seq![head] + rest).drop_first() =~= rest);
        assert((seq![head] + rest)[0] == head);
        assert(concat_all(seq![head] + rest) == head + concat_all(rest));
        assert(head + s.skip(width as int) =~= s);
    }
}

/// The views of rendered lines.
pub open spec fn styled_view(v: Seq<(String, LineStyle)>) -> Seq<(Seq<char>, LineStyle)> {
    v.map_values(|p: (String, LineStyle)| (p.0@, p.1))
}

/// What the renderer shows for the events `evs` at `width`.
pub open spec fn rendered(evs: Seq<MdEventView>, width: nat) -> Seq<(Seq<char>, LineStyle)> {
    wrap_all(block_lines(evs), width)
}

/// The events that `pulldown_cmark::Parser::new` reads from a text.
pub uninterp spec fn cmark_events(src: Seq<char>) -> Seq<MdEventView>;

/// Reads `src` with `pulldown_cmark::Parser::new` and gives its events, each
/// variant kept apart where the renderer needs it.  The contract names the result:
/// the parser's output depends on the text alone.
#[verifier::external_body]
fn parse_markdown(src: &str) -> (evs: Vec<MdEvent>)
    ensures
        events_view(evs@) == cmark_events(src@),
{
    pulldown_cmark::Parser::new(src).map(|ev| match ev {
        Event::Start(Tag::Heading { .. }) => MdEvent::HeadingStart,
        Event::End(TagEnd::Heading(_)) => MdEvent::HeadingEnd,
        Event::Start(Tag::CodeBlock(_)) => MdEvent::CodeBlockStart,
        Event::End(TagEnd::CodeBlock) => MdEvent::CodeBlockEnd,
        Event::Start(Tag::Item) => MdEvent::ItemStart,
        Event::End(TagEnd::Item) => MdEvent::ItemEnd,
        Event::End(TagEnd::Paragraph) => MdEvent::ParagraphEnd,
        Event::Text(t) => MdEvent::Text(t.into_string()),
        Event::Code(t) => MdEvent::Code(t.into_string()),
        Event::SoftBreak => MdEvent::SoftBreak,
        Event::HardBreak => MdEvent::HardBreak,
        _ => MdEvent::Other,
    }).collect()
}

/// Ends the line being collected, when it holds any text.
fn flush_line(lines: &mut Vec<(String, LineStyle)>, cur: &mut String, block: Block)
    ensures
        ({
            let f = flush(Collected { lines: styled_view(old(lines)@), cur: old(cur)@, block });
            &&& styled_view(final(lines)@) == f.lines
            &&& final(cur)@ == f.cur
        }),
{
    if !cur.as_str().is_empty() {
        let line = cur.clone();
        let ghost before = lines@;
        lines.push((line, style_for(block)));
        *cur = String::new();
        proof {
            assert(styled_view(lines@) =~= styled_view(before).push((old(cur)@, style_of(block))));
        }
    }
}

/// The style of a block's lines.
fn style_for(b: Block) -> (st: LineStyle)
    ensures
        st == style_of(b),
{
    match b {
        Block::Heading => LineStyle::Heading,
        Block::Code => LineStyle::Code,
        _ => LineStyle::Plain,
    }
}

/// The styled lines of a document given by its events: the block structure, before
/// wrapping.
pub fn collect_blocks(evs: &Vec<MdEvent>) -> (lines: Vec<(String, LineStyle)>)
    ensures
        styled_view(lines@) == block_lines(events_view(evs@)),
{
    let mut lines: Vec<(String, LineStyle)> = Vec::new();
    let mut cur = String::new();
    let mut block = Block::Paragraph;
    let n = evs.len();
    let mut i: usize = 0;
    proof {
        assert(styled_view(lines@) =~= Seq::<(Seq<char>, LineStyle)>::empty());
        assert(events_view(evs@).take(0) =~= Seq::<MdEventView>::empty());
    }
    while i < n
        invariant
            n == evs@.len(),
            i <= n,
            ({
                let c = collect(events_view(evs@).take(i as int));
                &&& styled_view(lines@) == c.lines
                &&& cur@ == c.cur
                &&& block == c.block
            }),
        decreases n - i,
    {
        let ghost st = Collected { lines: styled_view(lines@), cur: cur@, block };
        proof {
            let pre = events_view(evs@).take(i + 1);
            assert(pre.drop_last() =~= events_view(evs@).take(i as int));
            assert(pre.last() == evs@[i as int]@);
        }
        match &evs[i] {
            MdEvent::HeadingStart => {
                flush_line(&mut lines, &mut cur, block);
                block = Block::Heading;
            },
            MdEvent::HeadingEnd => {
                flush_line(&mut lines, &mut cur, block);
                block = Block::Paragraph;
                let ghost before = lines@;
                lines.push((String::new(), LineStyle::Plain));
                proof {
                    assert(styled_view(lines@) =~= styled_view(before).push(
                        (Seq::<char>::empty(), LineStyle::Plain),
                    ));
                }
            },
            MdEvent::CodeBlockStart => {
                flush_line(&mut lines, &mut cur, block);
                block = Block::Code;
            },
            MdEvent::CodeBlockEnd => {
                flush_line(&mut lines, &mut cur, block);
                block = Block::Paragraph;
                let ghost before = lines@;
                lines.push((String::new(), LineStyle::Plain));
                proof {
                    assert(styled_view(lines@) =~= styled_view(before).push(
                        (Seq::<char>::empty(), LineStyle::Plain),
                    ));
                }
            },
            MdEvent::ItemStart => {
                flush_line(&mut lines, &mut cur, block);
                block = Block::ListItem;
                append_str(&mut cur, "\u{2022} ");
                proof {
                    reveal_strlit("\u{2022} ");
                }
            },
            MdEvent::ItemEnd => {
                flush_line(&mut lines, &mut cur, block);
                block = Block::Paragraph;
            },
            MdEvent::ParagraphEnd => {
                flush_line(&mut lines, &mut cur, block);
            },
            MdEvent::Text(t) => {
                append_str(&mut cur, t.as_str());
            },
            MdEvent::Code(t) => {
                append_str(&mut cur, t.as_str());
            },
            MdEvent::SoftBreak | MdEvent::HardBreak => {
                let line = cur.clone();
                let ghost before = lines@;
                lines.push((line, style_for(block)));
                cur = String::new();
                proof {
                    assert(styled_view(lines@) =~= styled_view(before).push(
                        (st.cur, style_of(block)),
                    ));
                }
            },
            MdEvent::Other => {},
        }
        proof {
            assert(step(st, evs@[i as int]@) == collect(events_view(evs@).take(i + 1)));
        }
        i = i + 1;
    }
    flush_line(&mut lines, &mut cur, block);
    proof {
        assert(events_view(evs@).take(n as int) =~= events_view(evs@));
    }
    lines
}

/// The pieces of one line cut at `width`, each with the line's style.
fn wrap_line(s: &String, st: LineStyle, width: usize, out: &mut Vec<(String, LineStyle)>)
    ensures
        styled_view(final(out)@) == styled_view(old(out)@) + wrap(s@, width as nat).map_values(
            |p: Seq<char>| (p, st),
        ),
{
    let ghost start = out@;
    if width == 0 {
        out.push((s.clone(), st));
        proof {
            assert(styled_view(out@) =~= styled_view(start) + wrap(s@, width as nat).map_values(
                |p: Seq<char>| (p, st),
            ));
        }
        return;
    }
    let v = chars_of(s.as_str());
    let n = v.len();
    let mut pos: usize = 0;
    proof {
        assert(v@.skip(0) =~= s@);
        assert(styled_view(out@) =~= styled_view(start));
    }
    while pos < n
        invariant
            n == v@.len(),
            v@ == s@,
            width > 0,
            pos <= n,
            pos < n ==> styled_view(out@) + wrap(v@.skip(pos as int), width as nat).map_values(
                |p: Seq<char>| (p, st),
            ) == styled_view(start) + wrap(s@, width as nat).map_values(|p: Seq<char>| (p, st)),
            pos == n ==> styled_view(out@) == styled_view(start) + wrap(s@, width as nat).map_values(
                |p: Seq<char>| (p, st),
            ),
        decreases n - pos,
    {
        let rest = n - pos;
        let take = if rest <= width {
            rest
        } else {
            width
        };
        let mut piece: Vec<char> = Vec::new();
        let mut k: usize = 0;
        while k < take
            invariant
                n == v@.len(),
                pos + take <= n,
                k <= take,
                piece@ == v@.subrange(pos as int, pos + k),
            decreases take - k,
        {
            piece.push(v[pos + k]);
            proof {
                assert(v@.subrange(pos as int, pos + k + 1) =~= v@.subrange(pos as int, pos + k).push(
                    v@[pos + k],
                ));
            }
            k = k + 1;
        }
        let ghost tail = v@.skip(pos as int);
        let ghost before = out@;
        out.push((string_from_chars(&piece), st));
        proof {
            let f = |p: Seq<char>| (p, st);
            if rest <= width {
                assert(wrap(tail, width as nat) == seq![tail]);
                assert(piece@ =~= tail);
                assert(wrap(tail, width as nat).map_values(f) =~= seq![(tail, st)]);
                assert(styled_view(out@) =~= styled_view(before).push((tail, st)));
            } else {
                assert(piece@ =~= tail.take(width as int));
                assert(tail.skip(width as int) =~= v@.skip(pos + width));
                assert(wrap(tail, width as nat) == seq![tail.take(width as int)] + wrap(
                    tail.skip(width as int),
                    width as nat,
                ));
                assert(wrap(tail, width as nat).map_values(f) =~= seq![(piece@, st)]
                    + wrap(v@.skip(pos + width), width as nat).map_values(f));
                assert(styled_view(out@) =~= styled_view(before).push((piece@, st)));
                assert(pos + width < n);
            }
        }
        if rest <= width {
            pos = n;
        } else {
            pos = pos + width;
        }
    }
    proof {
        if n == 0 {
            assert(wrap(s@, width as nat) =~= Seq::<Seq<char>>::empty());
            assert(styled_view(out@) =~= styled_view(start) + wrap(s@, width as nat).map_values(
                |p: Seq<char>| (p, st),
            ));
        }
    }
}

/// Every line cut at `width`, in order, each piece keeping its line's style.
pub fn wrap_lines(lines: &Vec<(String, LineStyle)>, width: usize) -> (out: Vec<(String, LineStyle)>)
    ensures
        styled_view(out@) == wrap_all(styled_view(lines@), width as nat),
{
    let mut out: Vec<(String, LineStyle)> = Vec::new();
    let n = lines.len();
    let mut i: usize = 0;
    proof {
        assert(styled_view(lines@).take(0) =~= Seq::<(Seq<char>, LineStyle)>::empty());
        assert(styled_view(out@) =~= Seq::<(Seq<char>, LineStyle)>::empty());
    }
    while i < n
        invariant
            n == lines@.len(),
            i <= n,
            styled_view(out@) == wrap_all(styled_view(lines@).take(i as int), width as nat),
        decreases n - i,
    {
        let (s, st) = &lines[i];
        wrap_line(s, *st, width, &mut out);
        proof {
            let pre = styled_view(lines@).take(i + 1);
            assert(pre.drop_last() =~= styled_view(lines@).take(i as int));
            assert(pre.last() == (s@, *st));
        }
        i = i + 1;
    }
    proof {
        assert(styled_view(lines@).take(n as int) =~= styled_view(lines@));
    }
    out
}

/// Renders Markdown events at `width`: the block lines, each cut into pieces of at
/// most `width` characters (a width of 0 leaves lines whole).
pub fn render_events(evs: &Vec<MdEvent>, width: usize) -> (out: Vec<(String, LineStyle)>)
    ensures
        styled_view(out@) == rendered(events_view(evs@), width as nat),
{
    let lines = collect_blocks(evs);
    wrap_lines(&lines, width)
}

/// Renders Markdown text for the preview pane at `width`.
pub fn render_markdown_simple(src: &str, width: usize) -> (out: Vec<(String, LineStyle)>)
    ensures
        styled_view(out@) == rendered(cmark_events(src@), width as nat),
{
    let evs = parse_markdown(src);
    render_events(&evs, width)
}

/// A run of text inside a line: plain text or an inline code span.
pub open spec fn is_inline(ev: MdEventView) -> bool {
    ev is Text || ev is Code
}

/// The characters an inline event carries (none for other events).
pub open spec fn inline_piece(ev: MdEventView) -> Seq<char> {
    match ev {
        MdEventView::Text(t) => t,
        MdEventView::Code(t) => t,
        _ => Seq::empty(),
    }
}

/// The characters of the inline events of `evs`, one after another.
pub open spec fn pieces_text(evs: Seq<MdEventView>) -> Seq<char>
    decreases evs.len(),
{
    if evs.len() == 0 {
        Seq::empty()
    } else {
        pieces_text(evs.drop_last()) + inline_piece(evs.last())
    }
}

/// Text and inline code only ever add to the line being collected: after any events
/// `pre`, a run of text and code spans leaves the finished lines and the block alone
/// and puts the characters of every piece, in order, after what the line already held.
pub proof fn law_inline_text_is_kept(pre: Seq<MdEventView>, evs: Seq<MdEventView>)
    requires
        forall|i: int| 0 <= i < evs.len() ==> is_inline(#[trigger] evs[i]),
    ensures
        collect(pre + evs).cur == collect(pre).cur + pieces_text(evs),
        collect(pre + evs).lines == collect(pre).lines,
        collect(pre + evs).block == collect(pre).block,
    decreases evs.len(),
{
    if evs.len() == 0 {
        assert(pre + evs =~= pre);
        assert(collect(pre).cur + pieces_text(evs) =~= collect(pre).cur);
    } else {
        let init = evs.drop_last();
        assert forall|i: int| 0 <= i < init.len() implies is_inline(#[trigger] init[i]) by {
            assert(init[i] == evs[i]);
        }
        law_inline_text_is_kept(pre, init);
        assert((pre + evs).drop_last() =~= pre + init);
        assert((pre + evs).last() == evs.last());
        assert(is_inline(evs[evs.len() - 1]));
        assert(collect(pre).cur + pieces_text(init) + inline_piece(evs.last()) =~= collect(pre).cur
            + pieces_text(evs));
    }
}

/// A document that is one run of text and inline code spans renders, before wrapping,
/// as a single plain line holding all their characters in order (none when they hold
/// no characters).
pub proof fn law_inline_run_is_one_line(evs: Seq<MdEventView>)
    requires
        forall|i: int| 0 <= i < evs.len() ==> is_inline(#[trigger] evs[i]),
    ensures
        pieces_text(evs).len() > 0 ==> block_lines(evs) == seq![(pieces_text(evs), LineStyle::Plain)],
        pieces_text(evs).len() == 0 ==> block_lines(evs).len() == 0,
{
    law_inline_text_is_kept(Seq::empty(), evs);
    assert(Seq::<MdEventView>::empty() + evs =~= evs);
    assert(collect(Seq::<MdEventView>::empty()) == collect_start());
    assert(Seq::<char>::empty() + pieces_text(evs) =~= pieces_text(evs));
}

} // verus!
