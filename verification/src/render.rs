use crate::date::{ts_valid, Timestamp};
use crate::feed::all_entries_valid;
use crate::model::{Entry, EntryView};
use vstd::prelude::*;
use vstd::string::StringExecFns;

verus! {

/// The decimal digit `d` as a character.
pub open spec fn digit_char(d: int) -> char {
    if d == 0 {
        '0'
    } else if d == 1 {
        '1'
    } else if d == 2 {
        '2'
    } else if d == 3 {
        '3'
    } else if d == 4 {
        '4'
    } else if d == 5 {
        '5'
    } else if d == 6 {
        '6'
    } else if d == 7 {
        '7'
    } else if d == 8 {
        '8'
    } else {
        '9'
    }
}

/// `n` as two decimal digits, zero padded.
pub open spec fn dec2(n: int) -> Seq<char> {
    seq![digit_char(n / 10), digit_char(n % 10)]
}

/// `n` as four decimal digits, zero padded.
pub open spec fn dec4(n: int) -> Seq<char> {
    seq![
        digit_char(n / 1000),
        digit_char((n / 100) % 10),
        digit_char((n / 10) % 10),
        digit_char(n % 10),
    ]
}

/// The fixed `YYYY-MM-DD` date of a timestamp.
pub open spec fn iso_date(t: Timestamp) -> Seq<char> {
    dec4(t.year as int) + seq!['-'] + dec2(t.month as int) + seq!['-'] + dec2(t.day as int)
}

/// The text of a year heading.
pub open spec fn heading_text(y: int) -> Seq<char> {
    seq!['#', ' '] + dec4(y)
}

/// One entry's digest line: date, attribution, and a titled link.
pub open spec fn entry_line(e: EntryView) -> Seq<char> {
    iso_date(e.published) + seq![' ', '@'] + e.author + seq![' ', '['] + e.title + seq![']', '(']
        + e.url + seq![')']
}

/// One element of the rendered sequence: a year heading or an entry line.
pub ghost enum Block {
    Heading { year: int },
    Line { entry: EntryView },
}

/// The text of one block.
pub open spec fn block_text(b: Block) -> Seq<char> {
    match b {
        Block::Heading { year } => heading_text(year),
        Block::Line { entry } => entry_line(entry),
    }
}

/// The block sequence of an ordered entry list: each entry contributes its
/// line, preceded by a year heading exactly where its year differs from the
/// entry before it (so also before the very first entry).
pub open spec fn block_seq(s: Seq<EntryView>) -> Seq<Block>
    decreases s.len(),
{
    if s.len() == 0 {
        Seq::empty()
    } else {
        let pre = block_seq(s.drop_last());
        let e = s.last();
        if s.len() == 1 || s[s.len() - 2].published.year != e.published.year {
            pre + seq![
                Block::Heading { year: e.published.year as int },
                Block::Line { entry: e },
            ]
        } else {
            pre.push(Block::Line { entry: e })
        }
    }
}

/// The blank line that separates consecutive blocks.
pub open spec fn sep() -> Seq<char> {
    seq!['\n', '\n']
}

/// All blocks joined, a separator between every consecutive pair.
pub open spec fn join_blocks(bs: Seq<Seq<char>>) -> Seq<char>
    decreases bs.len(),
{
    if bs.len() == 0 {
        Seq::empty()
    } else if bs.len() == 1 {
        bs[0]
    } else {
        join_blocks(bs.drop_last()) + sep() + bs.last()
    }
}

/// The digest text of an ordered entry list.
pub open spec fn render_text(s: Seq<EntryView>) -> Seq<char> {
    join_blocks(block_seq(s).map_values(|b: Block| block_text(b)))
}

proof fn lemma_join_push(bs: Seq<Seq<char>>, b: Seq<char>)
    ensures
        join_blocks(bs.push(b)) == if bs.len() == 0 {
            b
        } else {
            join_blocks(bs) + sep() + b
        },
{
    assert(bs.push(b).drop_last() =~= bs);
    assert(bs.push(b).last() == b);
    if bs.len() == 0 {
        assert(join_blocks(bs.push(b)) == bs.push(b)[0]);
    }
}

/// The digit `d` as a one-character string.
fn digit_str(d: u32) -> (r: &'static str)
    requires
        d < 10,
    ensures
        r@ == seq![digit_char(d as int)],
{
    proof {
        reveal_strlit("0");
        reveal_strlit("1");
        reveal_strlit("2");
        reveal_strlit("3");
        reveal_strlit("4");
        reveal_strlit("5");
        reveal_strlit("6");
        reveal_strlit("7");
        reveal_strlit("8");
        reveal_strlit("9");
    }
    match d {
        0 => "0",
        1 => "1",
        2 => "2",
        3 => "3",
        4 => "4",
        5 => "5",
        6 => "6",
        7 => "7",
        8 => "8",
        _ => "9",
    }
}

/// Appends `n` as two zero-padded decimal digits.
fn push_dec2(buf: &mut String, n: u32)
    requires
        n < 100,
    ensures
        final(buf)@ == old(buf)@ + dec2(n as int),
{
    buf.append(digit_str(n / 10));
    buf.append(digit_str(n % 10));
    assert(final(buf)@ =~= old(buf)@ + dec2(n as int));
}

/// Appends `n` as four zero-padded decimal digits.
fn push_dec4(buf: &mut String, n: u32)
    requires
        n < 10000,
    ensures
        final(buf)@ == old(buf)@ + dec4(n as int),
{
    buf.append(digit_str(n / 1000));
    buf.append(digit_str((n / 100) % 10));
    buf.append(digit_str((n / 10) % 10));
    buf.append(digit_str(n % 10));
    assert(final(buf)@ =~= old(buf)@ + dec4(n as int));
}

/// Appends the `YYYY-MM-DD` date of a printable timestamp.
fn push_iso_date(buf: &mut String, t: Timestamp)
    requires
        ts_valid(t),
    ensures
        final(buf)@ == old(buf)@ + iso_date(t),
{
    proof {
        reveal_strlit("-");
    }
    push_dec4(buf, t.year as u32);
    buf.append("-");
    push_dec2(buf, t.month);
    buf.append("-");
    push_dec2(buf, t.day);
    assert(final(buf)@ =~= old(buf)@ + iso_date(t));
}

/// Appends one entry's digest line.
fn push_entry_line(buf: &mut String, e: &Entry)
    requires
        ts_valid(e@.published),
    ensures
        final(buf)@ == old(buf)@ + entry_line(e@),
{
    proof {
        reveal_strlit(" @");
        reveal_strlit(" [");
        reveal_strlit("](");
        reveal_strlit(")");
    }
    push_iso_date(buf, e.published);
    buf.append(" @");
    buf.append(e.author.as_str());
    buf.append(" [");
    buf.append(e.title.as_str());
    buf.append("](");
    buf.append(e.url.as_str());
    buf.append(")");
    assert(final(buf)@ =~= old(buf)@ + entry_line(e@));
}

/// Renders one bucket's ordered entry list as a year-segmented digest: a
/// heading at each year change, one line per entry, blocks joined by blank
/// lines; the empty list renders as the empty string.
pub fn render_digest(entries: &Vec<Entry>) -> (r: String)
    requires
        all_entries_valid(entries.deep_view()),
    ensures
        r@ == render_text(entries.deep_view()),
        entries.deep_view().len() == 0 ==> r@ == Seq::<char>::empty(),
{
    let ghost es = entries.deep_view();
    let mut buf = String::new();
    let n = entries.len();
    if n == 0 {
        proof {
            assert(render_text(es) == Seq::<char>::empty());
        }
        return buf;
    }
    proof {
        reveal_strlit("# ");
        reveal_strlit("\n\n");
        assert(es.take(0) =~= Seq::<EntryView>::empty());
        assert(block_seq(es.take(0)) =~= Seq::<Block>::empty());
        assert(render_text(es.take(0)) == Seq::<char>::empty());
    }
    let mut i: usize = 0;
    while i < n
        invariant
            n == entries@.len(),
            n > 0,
            i <= n,
            es == entries.deep_view(),
            all_entries_valid(es),
            buf@ == render_text(es.take(i as int)),
            block_seq(es.take(i as int)).len() == 0 <==> i == 0,
        decreases n - i,
    {
        let ghost tpre = es.take(i as int);
        let ghost tcur = es.take(i as int + 1);
        let ghost mpre = block_seq(tpre).map_values(|b: Block| block_text(b));
        proof {
            reveal_strlit("# ");
            reveal_strlit("\n\n");
            assert(tcur.drop_last() =~= tpre);
            assert(tcur.last() == es[i as int]);
            assert(es[i as int] == entries@[i as int]@);
            if i > 0 {
                assert(es[i as int - 1] == entries@[i as int - 1]@);
                assert(tcur[tcur.len() - 2] == es[i as int - 1]);
            }
        }
        let with_heading = i == 0 || entries[i - 1].published.year != entries[i].published.year;
        let ghost e = es[i as int];
        let ghost hd = Block::Heading { year: e.published.year as int };
        let ghost ln = Block::Line { entry: e };
        if with_heading {
            proof {
                assert(block_seq(tcur) == block_seq(tpre) + seq![hd, ln]);
                assert(block_seq(tcur).map_values(|b: Block| block_text(b)) =~= mpre.push(
                    heading_text(e.published.year as int),
                ).push(entry_line(e)));
                lemma_join_push(mpre, heading_text(e.published.year as int));
                lemma_join_push(
                    mpre.push(heading_text(e.published.year as int)),
                    entry_line(e),
                );
            }
            if i > 0 {
                buf.append("\n\n");
            }
            buf.append("# ");
            push_dec4(&mut buf, entries[i].published.year as u32);
            buf.append("\n\n");
            push_entry_line(&mut buf, &entries[i]);
            proof {
                assert(buf@ =~= render_text(tcur));
            }
        } else {
            proof {
                assert(block_seq(tcur) == block_seq(tpre).push(ln));
                assert(block_seq(tcur).map_values(|b: Block| block_text(b)) =~= mpre.push(
                    entry_line(e),
                ));
                lemma_join_push(mpre, entry_line(e));
            }
            buf.append("\n\n");
            push_entry_line(&mut buf, &entries[i]);
            proof {
                assert(buf@ =~= render_text(tcur));
            }
        }
        i += 1;
    }
    proof {
        assert(es.take(n as int) =~= es);
    }
    buf
}

/// The digest text is a function of the ordered entry list alone: two
/// renderings of the same list are byte-identical.
pub proof fn lemma_render_deterministic(s: Seq<EntryView>, r1: Seq<char>, r2: Seq<char>)
    requires
        r1 == render_text(s),
        r2 == render_text(s),
    ensures
        r1 == r2,
{
}

/// Entry years never increase along the list (they cannot, when the list
/// is sorted by instant and every timestamp's calendar year follows its
/// instant).
pub open spec fn years_nonincreasing(s: Seq<EntryView>) -> bool {
    forall|i: int, j: int|
        0 <= i <= j < s.len() ==> (#[trigger] s[i]).published.year >= (
        #[trigger] s[j]).published.year
}

/// Whether this block is the heading of year `y`.
pub open spec fn is_heading_for(b: Block, y: int) -> bool {
    b matches Block::Heading { year } && year == y
}

/// Whether this block is the line of an entry published in year `y`.
pub open spec fn is_line_with_year(b: Block, y: int) -> bool {
    b matches Block::Line { entry } && entry.published.year == y
}

/// How many headings of year `y` the block sequence holds.
pub open spec fn heading_count(bs: Seq<Block>, y: int) -> nat
    decreases bs.len(),
{
    if bs.len() == 0 {
        0
    } else {
        heading_count(bs.drop_last(), y) + if is_heading_for(bs.last(), y) {
            1nat
        } else {
            0nat
        }
    }
}

/// Some entry of the list is published in year `y`.
pub open spec fn has_year(s: Seq<EntryView>, y: int) -> bool {
    exists|i: int| 0 <= i < s.len() && (#[trigger] s[i]).published.year == y
}

/// A list whose entry years never increase is rendered with exactly one
/// heading per year that occurs in it, and none for any other year.
pub proof fn lemma_one_heading_per_year(s: Seq<EntryView>, y: int)
    requires
        years_nonincreasing(s),
    ensures
        heading_count(block_seq(s), y) == if has_year(s, y) {
            1nat
        } else {
            0nat
        },
    decreases s.len(),
{
    if s.len() == 0 {
        assert(block_seq(s) == Seq::<Block>::empty());
        assert(!has_year(s, y));
    } else {
        let pre = s.drop_last();
        assert(years_nonincreasing(pre)) by {
            assert forall|i: int, j: int|
                0 <= i <= j < pre.len() implies (#[trigger] pre[i]).published.year >= (
            #[trigger] pre[j]).published.year by {
                assert(pre[i] == s[i] && pre[j] == s[j]);
            }
        }
        lemma_one_heading_per_year(pre, y);
        let e = s.last();
        let bpre = block_seq(pre);
        let hd = Block::Heading { year: e.published.year as int };
        let ln = Block::Line { entry: e };
        if s.len() == 1 || s[s.len() - 2].published.year != e.published.year {
            let bs = bpre + seq![hd, ln];
            assert(block_seq(s) == bs);
            assert(bs.drop_last() =~= bpre.push(hd));
            assert(bs.last() == ln);
            assert(bpre.push(hd).drop_last() =~= bpre);
            assert(bpre.push(hd).last() == hd);
            assert(!is_heading_for(ln, y));
            assert(heading_count(bs, y) == heading_count(bpre.push(hd), y));
            assert(heading_count(bpre.push(hd), y) == heading_count(bpre, y) + if is_heading_for(
                hd,
                y,
            ) {
                1nat
            } else {
                0nat
            });
            if e.published.year == y {
                assert(!has_year(pre, y)) by {
                    if has_year(pre, y) {
                        let i = choose|i: int|
                            0 <= i < pre.len() && (#[trigger] pre[i]).published.year == y;
                        assert(pre[i] == s[i]);
                        assert(s.len() >= 2);
                        assert(s[i].published.year >= s[s.len() - 2].published.year);
                        assert(s[s.len() - 2].published.year >= e.published.year);
                        assert(false);
                    }
                }
                assert(has_year(s, y)) by {
                    assert(s[s.len() - 1].published.year == y);
                }
            } else {
                assert(has_year(s, y) <==> has_year(pre, y)) by {
                    if has_year(s, y) {
                        let i = choose|i: int|
                            0 <= i < s.len() && (#[trigger] s[i]).published.year == y;
                        assert(i < s.len() - 1);
                        assert(pre[i] == s[i]);
                        assert(has_year(pre, y));
                    }
                    if has_year(pre, y) {
                        let i = choose|i: int|
                            0 <= i < pre.len() && (#[trigger] pre[i]).published.year == y;
                        assert(s[i] == pre[i]);
                        assert(has_year(s, y));
                    }
                }
            }
        } else {
            let bs = bpre.push(ln);
            assert(block_seq(s) == bs);
            assert(bs.drop_last() =~= bpre);
            assert(bs.last() == ln);
            assert(heading_count(bs, y) == heading_count(bpre, y));
            assert(has_year(s, y) <==> has_year(pre, y)) by {
                if has_year(s, y) {
                    let i = choose|i: int|
                        0 <= i < s.len() && (#[trigger] s[i]).published.year == y;
                    if i == s.len() - 1 {
                        assert(s[s.len() - 2].published.year == y);
                        assert(pre[s.len() - 2] == s[s.len() - 2]);
                        assert(has_year(pre, y));
                    } else {
                        assert(pre[i] == s[i]);
                        assert(has_year(pre, y));
                    }
                }
                if has_year(pre, y) {
                    let i = choose|i: int|
                        0 <= i < pre.len() && (#[trigger] pre[i]).published.year == y;
                    assert(s[i] == pre[i]);
                    assert(has_year(s, y));
                }
            }
        }
    }
}

/// A list none of whose entries is published in year `y` renders no line
/// of year `y`.
proof fn lemma_no_line_with_year(s: Seq<EntryView>, y: int)
    requires
        forall|i: int| 0 <= i < s.len() ==> (#[trigger] s[i]).published.year != y,
    ensures
        forall|m: int|
            0 <= m < block_seq(s).len() ==> !is_line_with_year(#[trigger] block_seq(s)[m], y),
    decreases s.len(),
{
    if s.len() > 0 {
        let pre = s.drop_last();
        assert(forall|i: int| 0 <= i < pre.len() ==> (#[trigger] pre[i]).published.year != y)
            by {
            assert(forall|i: int| 0 <= i < pre.len() ==> pre[i] == s[i]);
        }
        lemma_no_line_with_year(pre, y);
        let e = s.last();
        assert(e.published.year != y);
        let bpre = block_seq(pre);
        assert forall|m: int|
            0 <= m < block_seq(s).len() implies !is_line_with_year(
            #[trigger] block_seq(s)[m],
            y,
        ) by {
            if m < bpre.len() {
                assert(block_seq(s)[m] == bpre[m]);
            }
        }
    }
}

/// Each year heading stands immediately before the line of that year's
/// first entry: the next block is a line of that year, and no line of that
/// year stands anywhere before the heading.
pub proof fn lemma_heading_precedes_first(s: Seq<EntryView>, y: int, k: int)
    requires
        years_nonincreasing(s),
        0 <= k < block_seq(s).len(),
        is_heading_for(block_seq(s)[k], y),
    ensures
        k + 1 < block_seq(s).len(),
        is_line_with_year(block_seq(s)[k + 1], y),
        forall|m: int| 0 <= m < k ==> !is_line_with_year(#[trigger] block_seq(s)[m], y),
    decreases s.len(),
{
    assert(s.len() > 0);
    let pre = s.drop_last();
    assert(years_nonincreasing(pre)) by {
        assert forall|i: int, j: int|
            0 <= i <= j < pre.len() implies (#[trigger] pre[i]).published.year >= (
        #[trigger] pre[j]).published.year by {
            assert(pre[i] == s[i] && pre[j] == s[j]);
        }
    }
    let e = s.last();
    let bpre = block_seq(pre);
    let bs = block_seq(s);
    if s.len() == 1 || s[s.len() - 2].published.year != e.published.year {
        let hd = Block::Heading { year: e.published.year as int };
        let ln = Block::Line { entry: e };
        assert(bs == bpre + seq![hd, ln]);
        if k < bpre.len() {
            assert(bs[k] == bpre[k]);
            lemma_heading_precedes_first(pre, y, k);
            assert(bs[k + 1] == bpre[k + 1]);
            assert forall|m: int| 0 <= m < k implies !is_line_with_year(
                #[trigger] bs[m],
                y,
            ) by {
                assert(bs[m] == bpre[m]);
            }
        } else if k == bpre.len() {
            assert(bs[k] == hd);
            assert(y == e.published.year as int);
            assert(bs[k + 1] == ln);
            assert(forall|i: int|
                0 <= i < pre.len() ==> (#[trigger] pre[i]).published.year != y) by {
                assert forall|i: int|
                    0 <= i < pre.len() implies (#[trigger] pre[i]).published.year != y by {
                    assert(pre[i] == s[i]);
                    assert(s[i].published.year >= s[s.len() - 2].published.year);
                    assert(s[s.len() - 2].published.year >= e.published.year);
                    assert(s[s.len() - 2].published.year != e.published.year);
                }
            }
            lemma_no_line_with_year(pre, y);
            assert forall|m: int| 0 <= m < k implies !is_line_with_year(
                #[trigger] bs[m],
                y,
            ) by {
                assert(bs[m] == bpre[m]);
            }
        } else {
            assert(bs[k] == ln);
            assert(false);
        }
    } else {
        let ln = Block::Line { entry: e };
        assert(bs == bpre.push(ln));
        if k == bpre.len() {
            assert(bs[k] == ln);
            assert(false);
        }
        assert(bs[k] == bpre[k]);
        lemma_heading_precedes_first(pre, y, k);
        assert(bs[k + 1] == bpre[k + 1]);
        assert forall|m: int| 0 <= m < k implies !is_line_with_year(#[trigger] bs[m], y) by {
            assert(bs[m] == bpre[m]);
        }
    }
}

} // verus!
