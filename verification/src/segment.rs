//! The line segmenter: from raw text to an ordered list of text lines and
//! records.

use crate::chars::{
    all_alnum, all_alnum_in, blank, find_char, find_from, is_blank, lemma_chars_deep_view,
    lemma_find_from_is, lemma_lines_lack, lines_of, split_lines, text_of, to_chars, trim_bounds,
    trimmed,
};
use crate::diagnostics::{Diagnostic, DiagnosticView};
use crate::fields::{find_key, has_key, lemma_unique_push, unique_keys};
use crate::value::{value_of, Value, ValueView};
use vstd::prelude::*;

verus! {

/// One item of a vector file.
#[derive(Clone, Debug, PartialEq, Eq)]
pub enum ContentItem {
    /// A line of free text, as it stands in the file.
    Text(String),
    /// A record: the fields of one block of assignments, in file order.
    KVS(Vec<(String, Value)>),
}

/// The items of a vector file in file order, each with a line number.
///
/// A text line carries its own number, counted from zero. A record carries
/// the number of the line that closed it, and zero where the input ended it.
#[derive(Clone, Debug, PartialEq, Eq)]
pub struct Content(pub Vec<(usize, ContentItem)>);

/// What a `ContentItem` holds.
pub enum ItemView {
    Text(Seq<char>),
    KVS(Seq<(Seq<char>, ValueView)>),
}

impl View for ContentItem {
    type V = ItemView;

    open spec fn view(&self) -> ItemView {
        match *self {
            ContentItem::Text(text) => ItemView::Text(text@),
            ContentItem::KVS(fields) => ItemView::KVS(fields.deep_view()),
        }
    }
}

impl DeepView for ContentItem {
    type V = ItemView;

    open spec fn deep_view(&self) -> ItemView {
        self@
    }
}

impl View for Content {
    type V = Seq<(usize, ItemView)>;

    open spec fn view(&self) -> Seq<(usize, ItemView)> {
        self.0.deep_view()
    }
}

impl DeepView for Content {
    type V = Seq<(usize, ItemView)>;

    open spec fn deep_view(&self) -> Seq<(usize, ItemView)> {
        self@
    }
}

/// Every literal of a record is short enough for its bit width to be
/// counted in a `usize`.
pub open spec fn record_fits(fields: Seq<(Seq<char>, ValueView)>) -> bool {
    forall|i: int| 0 <= i < fields.len() ==> 4 * (#[trigger] fields[i]).1.orig.len() <= usize::MAX
}

/// No record among `items` names a field twice.
pub open spec fn items_wf(items: Seq<(usize, ItemView)>) -> bool {
    forall|i: int|
        0 <= i < items.len() ==> match (#[trigger] items[i]).1 {
            ItemView::KVS(fields) => unique_keys(fields),
            ItemView::Text(_) => true,
        }
}

/// Every literal of every record among `items` is short enough for its bit
/// width to be counted in a `usize`.
pub open spec fn items_fit(items: Seq<(usize, ItemView)>) -> bool {
    forall|i: int|
        0 <= i < items.len() ==> match (#[trigger] items[i]).1 {
            ItemView::KVS(fields) => record_fits(fields),
            ItemView::Text(_) => true,
        }
}

impl Content {
    /// No record names a field twice.
    pub open spec fn wf(&self) -> bool {
        items_wf(self@)
    }

    /// Every literal is short enough for its bit width to be counted in a
    /// `usize`.
    pub open spec fn fits(&self) -> bool {
        items_fit(self@)
    }

    /// Whether every literal is short enough for its bit width to be
    /// counted in a `usize`.
    pub fn literals_fit(&self) -> (b: bool)
        ensures
            b == self.fits(),
    {
        let mut i: usize = 0;
        while i < self.0.len()
            invariant
                i <= self.0.len(),
                items_fit(self@.take(i as int)),
            decreases self.0.len() - i,
        {
            if let ContentItem::KVS(fields) = &self.0[i].1 {
                let mut j: usize = 0;
                assert(self@[i as int].1 == ItemView::KVS(fields.deep_view()));
                while j < fields.len()
                    invariant
                        j <= fields.len(),
                        i < self.0.len(),
                        self@[i as int].1 == ItemView::KVS(fields.deep_view()),
                        record_fits(fields.deep_view().take(j as int)),
                    decreases fields.len() - j,
                {
                    if !fields[j].1.literal_fits() {
                        assert(!record_fits(fields.deep_view())) by {
                            assert(4 * fields.deep_view()[j as int].1.orig.len() > usize::MAX);
                        }
                        return false;
                    }
                    assert(fields.deep_view().take(j + 1) =~= fields.deep_view().take(
                        j as int,
                    ).push(fields.deep_view()[j as int]));
                    j += 1;
                }
                assert(fields.deep_view().take(fields.len() as int) =~= fields.deep_view());
            }
            assert(self@.take(i + 1) =~= self@.take(i as int).push(self@[i as int]));
            i += 1;
        }
        assert(self@.take(self.0.len() as int) =~= self@);
        true
    }
}

/// What a line is to the segmenter.
pub enum LineKind {
    /// `key = value` with a key of ASCII letters and digits.
    Assignment { key: Seq<char>, value: Seq<char> },
    /// Anything else that is not blank.
    Text,
    /// Nothing but white space.
    Blank,
}

/// Reads one line. Key and value are what stands before and after the first
/// `=`, each without the white space around it.
pub open spec fn line_kind(line: Seq<char>) -> LineKind {
    let at = find_from(line, '=', 0);
    let key = trimmed(line.subrange(0, at));
    if at < line.len() && key.len() > 0 && all_alnum(key) {
        LineKind::Assignment { key, value: trimmed(line.subrange(at + 1, line.len() as int)) }
    } else if is_blank(line) {
        LineKind::Blank
    } else {
        LineKind::Text
    }
}

/// The segmenter between two lines: the items so far, the fields of the
/// record that is open, and the number of records closed.
pub struct Segmenter {
    pub items: Seq<(usize, ItemView)>,
    pub open: Option<Seq<(Seq<char>, ValueView)>>,
    pub records: nat,
}

/// The segmenter before the first line.
pub open spec fn seg_start() -> Segmenter {
    Segmenter { items: Seq::empty(), open: None, records: 0 }
}

/// Closes the open record, if there is one, under the line number `line`.
pub open spec fn seg_close(st: Segmenter, line: usize) -> Segmenter {
    match st.open {
        Some(fields) => Segmenter {
            items: st.items.push((line, ItemView::KVS(fields))),
            open: None,
            records: st.records + 1,
        },
        None => st,
    }
}

/// Takes in the line numbered `number`. An assignment joins the open record,
/// opening one where none is open, unless the record has its key already. Any
/// other line closes the open record and, unless blank, becomes a text item.
pub open spec fn seg_step(st: Segmenter, number: usize, line: Seq<char>) -> Result<
    Segmenter,
    DiagnosticView,
> {
    match line_kind(line) {
        LineKind::Assignment { key, value } => {
            let fields = match st.open {
                Some(fields) => fields,
                None => Seq::empty(),
            };
            if has_key(fields, key) {
                Err(
                    DiagnosticView::DuplicateKey {
                        field: key,
                        record: st.records as usize,
                        line: number,
                    },
                )
            } else {
                Ok(
                    Segmenter {
                        items: st.items,
                        open: Some(fields.push((key, value_of(value)))),
                        records: st.records,
                    },
                )
            }
        },
        LineKind::Text => {
            let closed = seg_close(st, number);
            Ok(
                Segmenter {
                    items: closed.items.push((number, ItemView::Text(line))),
                    open: None,
                    records: closed.records,
                },
            )
        },
        LineKind::Blank => Ok(seg_close(st, number)),
    }
}

/// The segmenter after the first `n` lines, or the first repeated key among
/// them.
pub open spec fn seg_run(lines: Seq<Seq<char>>, n: nat) -> Result<Segmenter, DiagnosticView>
    decreases n,
{
    if n == 0 {
        Ok(seg_start())
    } else {
        match seg_run(lines, (n - 1) as nat) {
            Ok(st) => seg_step(st, (n - 1) as usize, lines[n - 1]),
            Err(e) => Err(e),
        }
    }
}

/// The items of a file with the given lines. The end of the input closes a
/// record that is still open, under the line number zero.
pub open spec fn segmented(lines: Seq<Seq<char>>) -> Result<Seq<(usize, ItemView)>, DiagnosticView> {
    match seg_run(lines, lines.len()) {
        Ok(st) => Ok(seg_close(st, 0).items),
        Err(e) => Err(e),
    }
}

/// The items of a file with the given text.
pub open spec fn parsed(data: Seq<char>) -> Result<Seq<(usize, ItemView)>, DiagnosticView> {
    segmented(lines_of(data))
}

/// Once a key was found repeated, the lines after it change nothing.
pub proof fn lemma_seg_run_fails(lines: Seq<Seq<char>>, n: nat, m: nat)
    requires
        n <= m,
        seg_run(lines, n) is Err,
    ensures
        seg_run(lines, m) == seg_run(lines, n),
    decreases m,
{
    if n < m {
        lemma_seg_run_fails(lines, n, (m - 1) as nat);
    }
}

/// The segmenter never lets a record name a field twice: not the open
/// record and none of those it has closed.
pub proof fn lemma_seg_run_wf(lines: Seq<Seq<char>>, n: nat)
    requires
        n <= lines.len(),
    ensures
        seg_run(lines, n) matches Ok(st) ==> items_wf(st.items) && (st.open matches Some(fields)
            ==> unique_keys(fields)),
    decreases n,
{
    if n > 0 {
        lemma_seg_run_wf(lines, (n - 1) as nat);
        if let Ok(before) = seg_run(lines, (n - 1) as nat) {
            if let Ok(after) = seg_run(lines, n) {
                let number = (n - 1) as usize;
                match line_kind(lines[n - 1]) {
                    LineKind::Assignment { key, value } => {
                        let fields = match before.open {
                            Some(fields) => fields,
                            None => Seq::empty(),
                        };
                        lemma_unique_push(fields, key, value_of(value));
                    },
                    LineKind::Text => {
                        let closed = seg_close(before, number);
                        lemma_seg_close_wf(before, number);
                        assert forall|i: int| 0 <= i < after.items.len() implies match (
                        #[trigger] after.items[i]).1 {
                            ItemView::KVS(fields) => unique_keys(fields),
                            ItemView::Text(_) => true,
                        } by {
                            if i < closed.items.len() {
                                assert(after.items[i] == closed.items[i]);
                            }
                        }
                    },
                    LineKind::Blank => {
                        lemma_seg_close_wf(before, number);
                    },
                }
            }
        }
    }
}

/// Closing a record with unique names keeps the items well formed.
pub proof fn lemma_seg_close_wf(st: Segmenter, line: usize)
    requires
        items_wf(st.items),
        st.open matches Some(fields) ==> unique_keys(fields),
    ensures
        items_wf(seg_close(st, line).items),
{
    let closed = seg_close(st, line);
    assert forall|i: int| 0 <= i < closed.items.len() implies match (#[trigger] closed.items[i]).1 {
        ItemView::KVS(fields) => unique_keys(fields),
        ItemView::Text(_) => true,
    } by {
        if i < st.items.len() {
            assert(closed.items[i] == st.items[i]);
        }
    }
}

/// No record of a segmented text names a field twice.
pub proof fn lemma_parsed_wf(data: Seq<char>)
    ensures
        parsed(data) matches Ok(items) ==> items_wf(items),
{
    let lines = lines_of(data);
    lemma_seg_run_wf(lines, lines.len());
    if let Ok(st) = seg_run(lines, lines.len()) {
        lemma_seg_close_wf(st, 0);
    }
}

/// The text items of the first `n` lines where none of them is an
/// assignment: every line that is not blank, with its number.
pub open spec fn text_items(lines: Seq<Seq<char>>, n: nat) -> Seq<(usize, ItemView)>
    decreases n,
{
    if n == 0 {
        Seq::empty()
    } else if is_blank(lines[n - 1]) {
        text_items(lines, (n - 1) as nat)
    } else {
        text_items(lines, (n - 1) as nat).push(((n - 1) as usize, ItemView::Text(lines[n - 1])))
    }
}

/// The text of each item; nothing for a record.
pub open spec fn texts_of(items: Seq<(usize, ItemView)>) -> Seq<Seq<char>> {
    Seq::new(
        items.len(),
        |i: int|
            match items[i].1 {
                ItemView::Text(text) => text,
                ItemView::KVS(_) => Seq::empty(),
            },
    )
}

/// The text items of lines without assignments are the lines that are not
/// blank, in order.
pub proof fn lemma_text_items_filter(lines: Seq<Seq<char>>, n: nat)
    requires
        n <= lines.len(),
    ensures
        texts_of(text_items(lines, n)) == lines.take(n as int).filter(
            |line: Seq<char>| !is_blank(line),
        ),
        forall|i: int| 0 <= i < text_items(lines, n).len() ==> (#[trigger] text_items(lines, n)[i]).1
            is Text,
    decreases n,
{
    reveal(Seq::filter);
    let keep = |line: Seq<char>| !is_blank(line);
    if n > 0 {
        lemma_text_items_filter(lines, (n - 1) as nat);
        assert(lines.take(n as int).drop_last() =~= lines.take(n - 1));
        assert(lines.take(n as int).last() == lines[n - 1]);
        assert(texts_of(text_items(lines, n)) =~= lines.take(n as int).filter(keep));
    } else {
        assert(texts_of(text_items(lines, n)) =~= lines.take(n as int).filter(keep));
    }
}

/// Lines without an equals sign leave the segmenter without a record:
/// after `n` of them it holds their text items and nothing else.
pub proof fn lemma_seg_run_text(lines: Seq<Seq<char>>, n: nat)
    requires
        n <= lines.len(),
        forall|i: int| 0 <= i < lines.len() ==> !(#[trigger] lines[i]).contains('='),
    ensures
        seg_run(lines, n) == Ok::<Segmenter, DiagnosticView>(
            Segmenter { items: text_items(lines, n), open: None, records: 0 },
        ),
    decreases n,
{
    if n > 0 {
        lemma_seg_run_text(lines, (n - 1) as nat);
        let line = lines[n - 1];
        assert(!line.contains('='));
        assert forall|i: int| 0 <= i < line.len() implies line[i] != '=' by {
            assert(line.contains(line[i]));
        }
        lemma_find_from_is(line, '=', 0, line.len() as int);
    }
}

/// Text without an equals sign is segmented into its lines, in order and
/// each under its own number, with the blank lines left out.
pub proof fn lemma_text_only(data: Seq<char>)
    requires
        !data.contains('='),
    ensures
        parsed(data) == Ok::<Seq<(usize, ItemView)>, DiagnosticView>(
            text_items(lines_of(data), lines_of(data).len()),
        ),
        texts_of(text_items(lines_of(data), lines_of(data).len())) == lines_of(data).filter(
            |line: Seq<char>| !is_blank(line),
        ),
        forall|i: int|
            0 <= i < text_items(lines_of(data), lines_of(data).len()).len() ==> (
            #[trigger] text_items(lines_of(data), lines_of(data).len())[i]).1 is Text,
{
    let lines = lines_of(data);
    lemma_lines_lack(data, '=', 0);
    lemma_seg_run_text(lines, lines.len());
    lemma_text_items_filter(lines, lines.len());
    assert(lines.take(lines.len() as int) =~= lines);
}

/// Key and value of an assignment line, and nothing for any other line.
pub fn assignment(line: &Vec<char>) -> (r: Option<(String, String)>)
    ensures
        match line_kind(line@) {
            LineKind::Assignment { key, value } => r matches Some(pair) && pair.0@ == key
                && pair.1@ == value,
            _ => r is None,
        },
        r matches Some(pair) ==> pair.1@.len() <= line.len(),
{
    let at = find_char(line, '=', 0);
    if at >= line.len() {
        return None;
    }
    let (lo, hi) = trim_bounds(line, 0, at);
    if lo < hi && all_alnum_in(line, lo, hi) {
        let (from, to) = trim_bounds(line, at + 1, line.len());
        Some((text_of(line, lo, hi), text_of(line, from, to)))
    } else {
        None
    }
}

/// Segments the text of a vector file.
///
/// The result is `Err` exactly if a record names a field twice; the error
/// is then the `DuplicateKey` of the first such line.
pub fn parse_content(data: &str) -> (r: Result<Content, Diagnostic>)
    ensures
        match parsed(data@) {
            Ok(items) => r is Ok && r->Ok_0@ == items,
            Err(e) => r is Err && r->Err_0@ == e,
        },
        r is Ok ==> r->Ok_0.wf(),
        r is Ok && 4 * data@.len() <= usize::MAX ==> r->Ok_0.fits(),
{
    let chars = to_chars(data);
    let lines = split_lines(&chars);
    let mut items: Vec<(usize, ContentItem)> = Vec::new();
    let mut fields: Vec<(String, Value)> = Vec::new();
    let mut is_open = false;
    let mut records: usize = 0;
    let mut n: usize = 0;
    proof {
        assert(items.deep_view() =~= Seq::<(usize, ItemView)>::empty());
        assert(fields.deep_view() =~= Seq::<(Seq<char>, ValueView)>::empty());
    }
    while n < lines.len()
        invariant
            n <= lines.len(),
            records <= items.len(),
            lines.deep_view() == lines_of(data@),
            forall|i: int| 0 <= i < lines.len() ==> (#[trigger] lines@[i]).len() <= data@.len(),
            !is_open ==> fields@.len() == 0,
            seg_run(lines.deep_view(), n as nat) == Ok::<Segmenter, DiagnosticView>(
                Segmenter {
                    items: items.deep_view(),
                    open: if is_open {
                        Some(fields.deep_view())
                    } else {
                        None
                    },
                    records: records as nat,
                },
            ),
            forall|i: int|
                0 <= i < fields.len() ==> (#[trigger] fields.deep_view()[i]).1.orig.len()
                    <= data@.len(),
            forall|i: int|
                0 <= i < items.len() ==> match (#[trigger] items.deep_view()[i]).1 {
                    ItemView::KVS(f) => forall|j: int|
                        0 <= j < f.len() ==> (#[trigger] f[j]).1.orig.len() <= data@.len(),
                    ItemView::Text(_) => true,
                },
        decreases lines.len() - n,
    {
        let line = &lines[n];
        proof {
            lemma_chars_deep_view(*line);
            assert(lines.deep_view()[n as int] == line@);
        }
        let ghost before = Segmenter {
            items: items.deep_view(),
            open: if is_open {
                Some(fields.deep_view())
            } else {
                None
            },
            records: records as nat,
        };
        match assignment(line) {
            Some((key, raw)) => {
                let at = find_key(&fields, &key);
                if at < fields.len() {
                    proof {
                        assert(seg_step(before, n, line@) is Err);
                        lemma_seg_run_fails(lines.deep_view(), (n + 1) as nat, lines.len() as nat);
                    }
                    return Err(Diagnostic::DuplicateKey { field: key, record: records, line: n });
                }
                let value = Value::from_str(raw.as_str());
                let ghost old_fields = fields.deep_view();
                proof {
                    if !is_open {
                        assert(old_fields =~= Seq::<(Seq<char>, ValueView)>::empty());
                    }
                }
                fields.push((key, value));
                is_open = true;
                proof {
                    assert(fields.deep_view() =~= old_fields.push((key@, value@)));
                    assert(seg_step(before, n, line@) == Ok::<Segmenter, DiagnosticView>(
                        Segmenter {
                            items: items.deep_view(),
                            open: Some(fields.deep_view()),
                            records: records as nat,
                        },
                    ));
                }
            },
            None => {
                if is_open {
                    let ghost old_items = items.deep_view();
                    let ghost closing = fields.deep_view();
                    items.push((n, ContentItem::KVS(fields)));
                    fields = Vec::new();
                    is_open = false;
                    assert(records < items.len());
                    records += 1;
                    proof {
                        assert(items.deep_view() =~= old_items.push((n, ItemView::KVS(closing))));
                        assert(fields.deep_view() =~= Seq::<(Seq<char>, ValueView)>::empty());
                    }
                }
                if !blank(line) {
                    let ghost old_items = items.deep_view();
                    let text = text_of(line, 0, line.len());
                    proof {
                        assert(line@.subrange(0, line.len() as int) =~= line@);
                    }
                    items.push((n, ContentItem::Text(text)));
                    proof {
                        assert(items.deep_view() =~= old_items.push((n, ItemView::Text(line@))));
                    }
                }
                proof {
                    assert(seg_step(before, n, line@) == Ok::<Segmenter, DiagnosticView>(
                        Segmenter {
                            items: items.deep_view(),
                            open: None,
                            records: records as nat,
                        },
                    ));
                }
            },
        }
        n += 1;
    }
    if is_open {
        let ghost old_items = items.deep_view();
        let ghost closing = fields.deep_view();
        items.push((0, ContentItem::KVS(fields)));
        proof {
            assert(items.deep_view() =~= old_items.push((0usize, ItemView::KVS(closing))));
        }
    }
    proof {
        lemma_parsed_wf(data@);
    }
    Ok(Content(items))
}

} // verus!
