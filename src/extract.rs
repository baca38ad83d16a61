//! Extraction of question records from a listing page.
use vstd::prelude::*;
use crate::stamp::{attribute_stamp, clock_reading, local_now, parse_timestamp, Stamp};
use crate::markup::{
    attr_at, compile_selector, document_has_match, element_attr, element_text, first_in_document,
    matches_within, parse_page, select_within, selector_accepted, text_at, Css, Element, Path,
};
use crate::text::{nth_field, parse_i64, parse_unsigned, signed_value, unsigned_value, split_field, strip_trailing_char, trim, trimmed, within};

verus! {

/// One question of a listing page, as extracted.
#[derive(Clone, Debug)]
pub struct QuestionRow {
    pub title: String,
    pub id: i64,
    pub q_year: u16,
    pub q_month: u8,
    pub q_day: u8,
    pub q_hour: u8,
    pub q_min: u8,
    pub q_sec: u8,
}

/// What a [`QuestionRow`] holds, as values.
pub struct RowView {
    pub title: Seq<char>,
    pub id: i64,
    pub published: Stamp,
}

impl View for QuestionRow {
    type V = RowView;

    open spec fn view(&self) -> RowView {
        RowView {
            title: self.title@,
            id: self.id,
            published: Stamp {
                year: self.q_year,
                month: self.q_month,
                day: self.q_day,
                hour: self.q_hour,
                minute: self.q_min,
                second: self.q_sec,
            },
        }
    }
}

impl QuestionRow {
    /// A copy of the row, with the same values.
    pub fn copy(&self) -> (r: QuestionRow)
        ensures
            r@ == self@,
    {
        QuestionRow {
            title: self.title.clone(),
            id: self.id,
            q_year: self.q_year,
            q_month: self.q_month,
            q_day: self.q_day,
            q_hour: self.q_hour,
            q_min: self.q_min,
            q_sec: self.q_sec,
        }
    }
}

/// The raw text that one question block of a page offers: the text of its
/// title element, the `href` of its link and the `title` attribute of its
/// timestamp, each absent when the block lacks it.
#[derive(Clone, Debug)]
pub struct RawBlock {
    pub title: Option<String>,
    pub link: Option<String>,
    pub stamp: Option<String>,
}

/// What a [`RawBlock`] holds, as values.
pub struct BlockView {
    pub title: Option<Seq<char>>,
    pub link: Option<Seq<char>>,
    pub stamp: Option<Seq<char>>,
}

pub open spec fn text_view(t: Option<String>) -> Option<Seq<char>> {
    match t {
        Some(s) => Some(s@),
        None => None,
    }
}

impl View for RawBlock {
    type V = BlockView;

    open spec fn view(&self) -> BlockView {
        BlockView {
            title: text_view(self.title),
            link: text_view(self.link),
            stamp: text_view(self.stamp),
        }
    }
}

/// The question id in a link such as `/questions/79870378/some-title`: its
/// third `/`-separated field read as an `i64`, or 0 when that fails.
pub open spec fn id_of_link(link: Seq<char>) -> i64 {
    match nth_field(link, '/', 2) {
        Some(f) => match within(signed_value(f), i64::MIN as int, i64::MAX as int) {
            Some(v) => v as i64,
            None => 0,
        },
        None => 0,
    }
}

/// The record that a block yields at the moment `now`: none when its trimmed
/// title is empty; else its id (0 when unreadable) and its publication stamp
/// (`now` when absent).
pub open spec fn row_of(b: BlockView, now: Stamp) -> Option<RowView> {
    let title = match b.title {
        Some(t) => trimmed(t),
        None => Seq::empty(),
    };
    if title.len() == 0 {
        None
    } else {
        Some(
            RowView {
                title,
                id: match b.link {
                    Some(l) => id_of_link(l),
                    None => 0,
                },
                published: match b.stamp {
                    Some(a) => attribute_stamp(a, now),
                    None => now,
                },
            },
        )
    }
}

/// The records that a sequence of blocks yields, in order.
pub open spec fn rows_of(bs: Seq<BlockView>, now: Stamp) -> Seq<RowView>
    decreases bs.len(),
{
    if bs.len() == 0 {
        Seq::empty()
    } else {
        let r = rows_of(bs.drop_last(), now);
        match row_of(bs.last(), now) {
            Some(x) => r.push(x),
            None => r,
        }
    }
}

pub open spec fn row_views(rows: Seq<QuestionRow>) -> Seq<RowView> {
    rows.map_values(|q: QuestionRow| q@)
}

pub open spec fn block_views(bs: Seq<RawBlock>) -> Seq<BlockView> {
    bs.map_values(|b: RawBlock| b@)
}

/// The question id in a link (see [`id_of_link`]).
pub fn link_id(link: &str) -> (r: i64)
    ensures
        r == id_of_link(link@),
{
    match split_field(link, '/', 2) {
        Some(f) => match parse_i64(f.as_str()) {
            Some(v) => v,
            None => 0,
        },
        None => 0,
    }
}

/// The record of one block at the moment `now`, if it has a title.
pub fn row_from_block(block: &RawBlock, now: Stamp) -> (r: Option<QuestionRow>)
    ensures
        match r {
            Some(q) => row_of(block@, now) == Some(q@),
            None => row_of(block@, now) is None,
        },
{
    let title = match &block.title {
        Some(t) => trim(t.as_str()),
        None => String::new(),
    };
    if title.unicode_len() == 0 {
        return None;
    }
    let id = match &block.link {
        Some(l) => link_id(l.as_str()),
        None => 0,
    };
    let published = match &block.stamp {
        Some(a) => {
            let bare = strip_trailing_char(a.as_str(), 'Z');
            parse_timestamp(bare.as_str(), now)
        },
        None => now,
    };
    Some(
        QuestionRow {
            title,
            id,
            q_year: published.year,
            q_month: published.month,
            q_day: published.day,
            q_hour: published.hour,
            q_min: published.minute,
            q_sec: published.second,
        },
    )
}

/// The records of a page's blocks at the moment `now`: blocks without a
/// title are dropped, the others kept in order.
pub fn rows_from_blocks(blocks: &Vec<RawBlock>, now: Stamp) -> (r: Vec<QuestionRow>)
    ensures
        row_views(r@) == rows_of(block_views(blocks@), now),
{
    let mut out: Vec<QuestionRow> = Vec::new();
    let mut i: usize = 0;
    while i < blocks.len()
        invariant
            i <= blocks@.len(),
            row_views(out@) == rows_of(block_views(blocks@.subrange(0, i as int)), now),
        decreases blocks@.len() - i,
    {
        let ghost before = out@;
        assert(block_views(blocks@.subrange(0, i + 1)).drop_last() =~= block_views(
            blocks@.subrange(0, i as int),
        ));
        match row_from_block(&blocks[i], now) {
            Some(q) => {
                out.push(q);
                assert(row_views(out@) =~= row_views(before).push(q@));
            },
            None => {},
        }
        i = i + 1;
    }
    assert(blocks@.subrange(0, blocks@.len() as int) =~= blocks@);
    out
}

/// Where a page keeps its questions: CSS selectors for the container of the
/// listing, for each question block inside it, and, inside a block, for the
/// title text, the question link and the publication timestamp.
#[derive(Clone, Debug)]
pub struct ExtractionPolicy {
    pub container: String,
    pub block: String,
    pub title: String,
    pub link: String,
    pub timestamp: String,
    /// The element, inside the container, whose `content` attribute holds
    /// the listing's total number of items.
    pub count: String,
}

impl ExtractionPolicy {
    /// Whether the markup parser accepts every selector that locates records.
    pub open spec fn accepted(&self) -> bool {
        &&& selector_accepted(self.container@)
        &&& selector_accepted(self.block@)
        &&& selector_accepted(self.title@)
        &&& selector_accepted(self.link@)
        &&& selector_accepted(self.timestamp@)
    }

    /// The selectors of the question listing's current markup.
    pub fn standard() -> (r: ExtractionPolicy)
        ensures
            r.container@ == "div#questions"@,
            r.block@ == "div.s-post-summary.js-post-summary"@,
            r.title@ == "h3.s-post-summary--content-title a span[itemprop='name']"@,
            r.link@ == "h3.s-post-summary--content-title a.s-link"@,
            r.timestamp@ == "time.s-user-card--time span.relativetime"@,
            r.count@ == "meta[itemprop='numberOfItems']"@,
    {
        ExtractionPolicy {
            container: String::from_str("div#questions"),
            block: String::from_str("div.s-post-summary.js-post-summary"),
            title: String::from_str("h3.s-post-summary--content-title a span[itemprop='name']"),
            link: String::from_str("h3.s-post-summary--content-title a.s-link"),
            timestamp: String::from_str("time.s-user-card--time span.relativetime"),
            count: String::from_str("meta[itemprop='numberOfItems']"),
        }
    }
}

/// Why a page could not be read.
#[derive(Clone, Copy, Debug, PartialEq, Eq, Structural)]
pub enum ExtractError {
    /// A selector of the policy is not accepted by the markup parser.
    InvalidSelector,
    /// The page shows no item count.
    MissingCount,
    /// The item count is not an unsigned number.
    UnreadableCount,
}

/// The number written in an item count attribute.
pub fn count_of(content: &str) -> (r: Result<u64, ExtractError>)
    ensures
        match within(unsigned_value(content@), 0, u64::MAX as int) {
            Some(v) => r == Ok::<u64, ExtractError>(v as u64),
            None => r == Err::<u64, ExtractError>(ExtractError::UnreadableCount),
        },
{
    match parse_unsigned(content, u64::MAX) {
        Some(v) => Ok(v),
        None => Err(ExtractError::UnreadableCount),
    }
}

/// The text of the first element below `scope` that matches `css`, if any.
pub open spec fn first_text(html: Seq<char>, scope: Path, css: Seq<char>) -> Option<Seq<char>> {
    if matches_within(html, scope, css) > 0 {
        Some(text_at(html, scope.push((css, 0nat))))
    } else {
        None
    }
}

/// Attribute `name` of the first element below `scope` that matches `css`,
/// if there is such an element and it has the attribute.
pub open spec fn first_attr(html: Seq<char>, scope: Path, css: Seq<char>, name: Seq<char>) -> Option<
    Seq<char>,
> {
    if matches_within(html, scope, css) > 0 {
        attr_at(html, scope.push((css, 0nat)), name)
    } else {
        None
    }
}

/// The raw block at `path`: the text of its first title element, the `href`
/// of its first link element and the `title` of its first timestamp element.
pub open spec fn block_at(
    html: Seq<char>,
    path: Path,
    title: Seq<char>,
    link: Seq<char>,
    stamp: Seq<char>,
) -> BlockView {
    BlockView {
        title: first_text(html, path, title),
        link: first_attr(html, path, link, "href"@),
        stamp: first_attr(html, path, stamp, "title"@),
    }
}

/// The raw blocks of the page parsed from `html`: the blocks below the first
/// container element, in document order; none when there is no container.
pub open spec fn page_blocks(
    html: Seq<char>,
    container: Seq<char>,
    block: Seq<char>,
    title: Seq<char>,
    link: Seq<char>,
    stamp: Seq<char>,
) -> Seq<BlockView> {
    if document_has_match(html, container) {
        let c = seq![(container, 0nat)];
        Seq::new(
            matches_within(html, c, block),
            |i: int| block_at(html, c.push((block, i as nat)), title, link, stamp),
        )
    } else {
        Seq::empty()
    }
}

impl ExtractionPolicy {
    /// The raw blocks that the policy finds in the page parsed from `html`.
    pub open spec fn blocks_of(&self, html: Seq<char>) -> Seq<BlockView> {
        page_blocks(html, self.container@, self.block@, self.title@, self.link@, self.timestamp@)
    }
}

/// Whether the markup parser accepts every record selector of
/// [`ExtractionPolicy::standard`].
pub open spec fn standard_accepted() -> bool {
    &&& selector_accepted("div#questions"@)
    &&& selector_accepted("div.s-post-summary.js-post-summary"@)
    &&& selector_accepted("h3.s-post-summary--content-title a span[itemprop='name']"@)
    &&& selector_accepted("h3.s-post-summary--content-title a.s-link"@)
    &&& selector_accepted("time.s-user-card--time span.relativetime"@)
}

/// The raw blocks that [`ExtractionPolicy::standard`] finds in the page
/// parsed from `html`.
pub open spec fn standard_blocks(html: Seq<char>) -> Seq<BlockView> {
    page_blocks(
        html,
        "div#questions"@,
        "div.s-post-summary.js-post-summary"@,
        "h3.s-post-summary--content-title a span[itemprop='name']"@,
        "h3.s-post-summary--content-title a.s-link"@,
        "time.s-user-card--time span.relativetime"@,
    )
}

/// The item count attribute of the page parsed from `html`: the `content`
/// of the first count element below the first container element.
pub open spec fn count_attr(html: Seq<char>, container: Seq<char>, count: Seq<char>) -> Option<
    Seq<char>,
> {
    if document_has_match(html, container) {
        first_attr(html, seq![(container, 0nat)], count, "content"@)
    } else {
        None
    }
}

/// Text of the first element below `scope` that matches `css`.
fn first_text_within(scope: &Element, css: &Css) -> (r: Option<String>)
    ensures
        match r {
            Some(t) => first_text(scope.source(), scope.path(), css.text()) == Some(t@),
            None => first_text(scope.source(), scope.path(), css.text()) is None,
        },
{
    let found = select_within(scope, css);
    if found.len() > 0 {
        Some(element_text(&found[0]))
    } else {
        None
    }
}

/// Attribute `name` of the first element below `scope` that matches `css`.
fn first_attr_within(scope: &Element, css: &Css, name: &str) -> (r: Option<String>)
    ensures
        match r {
            Some(t) => first_attr(scope.source(), scope.path(), css.text(), name@) == Some(t@),
            None => first_attr(scope.source(), scope.path(), css.text(), name@) is None,
        },
{
    let found = select_within(scope, css);
    if found.len() > 0 {
        element_attr(&found[0], name)
    } else {
        None
    }
}

/// The raw text of the question block `block` under the inner selectors.
fn raw_block(block: &Element, title: &Css, link: &Css, stamp: &Css) -> (r: RawBlock)
    ensures
        r@ == block_at(block.source(), block.path(), title.text(), link.text(), stamp.text()),
{
    let t = first_text_within(block, title);
    let l = first_attr_within(block, link, "href");
    let s = first_attr_within(block, stamp, "title");
    RawBlock { title: t, link: l, stamp: s }
}

/// Extracts the question records of a page under `policy`, at the moment
/// `now`: the records of the raw blocks that the policy finds (see
/// [`ExtractionPolicy::blocks_of`]). A page without the container yields no
/// records.
pub fn extract_questions(page_html: &str, policy: &ExtractionPolicy, now: Stamp) -> (r: Result<
    Vec<QuestionRow>,
    ExtractError,
>)
    ensures
        r is Err <==> !policy.accepted(),
        r matches Ok(rows) ==> row_views(rows@) == rows_of(policy.blocks_of(page_html@), now),
        !document_has_match(page_html@, policy.container@) ==> (r matches Ok(rows) ==> rows@.len()
            == 0),
{
    let container_sel = match compile_selector(policy.container.as_str()) {
        Some(s) => s,
        None => return Err(ExtractError::InvalidSelector),
    };
    let block_sel = match compile_selector(policy.block.as_str()) {
        Some(s) => s,
        None => return Err(ExtractError::InvalidSelector),
    };
    let title_sel = match compile_selector(policy.title.as_str()) {
        Some(s) => s,
        None => return Err(ExtractError::InvalidSelector),
    };
    let link_sel = match compile_selector(policy.link.as_str()) {
        Some(s) => s,
        None => return Err(ExtractError::InvalidSelector),
    };
    let stamp_sel = match compile_selector(policy.timestamp.as_str()) {
        Some(s) => s,
        None => return Err(ExtractError::InvalidSelector),
    };
    let page = parse_page(page_html);
    let ghost html = page_html@;
    let ghost expected = policy.blocks_of(html);
    let mut raws: Vec<RawBlock> = Vec::new();
    match first_in_document(&page, &container_sel) {
        Some(container) => {
            let blocks = select_within(&container, &block_sel);
            assert(expected.len() == blocks@.len());
            let mut i: usize = 0;
            while i < blocks.len()
                invariant
                    i <= blocks@.len(),
                    page.source() == html,
                    container.path() == seq![(policy.container@, 0nat)],
                    container.source() == html,
                    block_sel.text() == policy.block@,
                    title_sel.text() == policy.title@,
                    link_sel.text() == policy.link@,
                    stamp_sel.text() == policy.timestamp@,
                    expected == policy.blocks_of(html),
                    document_has_match(html, policy.container@),
                    blocks@.len() == matches_within(html, container.path(), policy.block@),
                    forall|j: int|
                        0 <= j < blocks@.len() ==> (#[trigger] blocks@[j]).path()
                            == container.path().push((policy.block@, j as nat)) && blocks@[j].source()
                            == html,
                    expected.len() == blocks@.len(),
                    raws@.len() == i,
                    block_views(raws@) == expected.subrange(0, i as int),
                decreases blocks@.len() - i,
            {
                let b = raw_block(&blocks[i], &title_sel, &link_sel, &stamp_sel);
                let ghost before = raws@;
                assert(blocks@[i as int].path() == seq![(policy.container@, 0nat)].push(
                    (policy.block@, i as nat),
                ));
                assert(b@ == expected[i as int]);
                raws.push(b);
                assert(raws@ =~= before.push(b));
                assert forall|j: int| 0 <= j < i + 1 implies #[trigger] block_views(raws@)[j]
                    == expected.subrange(0, i + 1)[j] by {
                    if j < i {
                        assert(raws@[j] == before[j]);
                        assert(block_views(before)[j] == expected.subrange(0, i as int)[j]);
                    }
                }
                assert(block_views(raws@) =~= expected.subrange(0, i + 1));
                i = i + 1;
            }
            assert(expected.subrange(0, expected.len() as int) =~= expected);
        },
        None => {
            assert(block_views(raws@) =~= expected);
        },
    }
    let rows = rows_from_blocks(&raws, now);
    proof {
        if !document_has_match(html, policy.container@) {
            assert(expected.len() == 0);
            assert(rows_of(expected, now).len() == 0);
        }
    }
    Ok(rows)
}

/// The question records of a page under the standard policy, stamped with
/// the current time where a block has no timestamp: the records of the raw
/// blocks that the standard policy finds, at the moment of the call (a
/// reading of the local clock). Were a
/// standard selector refused by the parser, there would be none.
pub fn parse_questions(page_html: &str) -> (r: Vec<QuestionRow>)
    ensures
        standard_accepted() ==> exists|now: Stamp|
            clock_reading(now) && row_views(r@) == rows_of(standard_blocks(page_html@), now),
        !standard_accepted() ==> r@.len() == 0,
{
    let policy = ExtractionPolicy::standard();
    let now = local_now();
    assert(policy.blocks_of(page_html@) == standard_blocks(page_html@));
    match extract_questions(page_html, &policy, now) {
        Ok(rows) => {
            assert(row_views(rows@) == rows_of(standard_blocks(page_html@), now));
            rows
        },
        Err(_) => Vec::new(),
    }
}

/// The records that blocks yield do not depend on the moment of extraction
/// but for their stamps: at any two moments the same blocks yield records
/// with the same titles and ids, in the same order.
pub proof fn lemma_rows_ignore_moment(bs: Seq<BlockView>, a: Stamp, b: Stamp)
    ensures
        rows_of(bs, a).len() == rows_of(bs, b).len(),
        forall|i: int|
            0 <= i < rows_of(bs, a).len() ==> (#[trigger] rows_of(bs, a)[i]).id == rows_of(
                bs,
                b,
            )[i].id && rows_of(bs, a)[i].title == rows_of(bs, b)[i].title,
    decreases bs.len(),
{
    if bs.len() > 0 {
        lemma_rows_ignore_moment(bs.drop_last(), a, b);
    }
}

/// The listing's total number of items, as the first page shows it: the
/// number in the `content` of the policy's first count element below its
/// first container element (see [`count_attr`]).
pub fn total_item_count(page_html: &str, policy: &ExtractionPolicy) -> (r: Result<
    u64,
    ExtractError,
>)
    ensures
        !(selector_accepted(policy.container@) && selector_accepted(policy.count@)) ==> r == Err::<
            u64,
            ExtractError,
        >(ExtractError::InvalidSelector),
        selector_accepted(policy.container@) && selector_accepted(policy.count@) ==> match count_attr(
            page_html@,
            policy.container@,
            policy.count@,
        ) {
            None => r == Err::<u64, ExtractError>(ExtractError::MissingCount),
            Some(c) => match within(unsigned_value(c), 0, u64::MAX as int) {
                Some(v) => r == Ok::<u64, ExtractError>(v as u64),
                None => r == Err::<u64, ExtractError>(ExtractError::UnreadableCount),
            },
        },
{
    let container_sel = match compile_selector(policy.container.as_str()) {
        Some(s) => s,
        None => return Err(ExtractError::InvalidSelector),
    };
    let count_sel = match compile_selector(policy.count.as_str()) {
        Some(s) => s,
        None => return Err(ExtractError::InvalidSelector),
    };
    let page = parse_page(page_html);
    let container = match first_in_document(&page, &container_sel) {
        Some(c) => c,
        None => return Err(ExtractError::MissingCount),
    };
    match first_attr_within(&container, &count_sel, "content") {
        Some(c) => count_of(c.as_str()),
        None => Err(ExtractError::MissingCount),
    }
}

} // verus!
