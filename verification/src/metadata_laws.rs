//! What holds of the metadata reader on every text, and on blocks that are
//! written out pair by pair.

use vstd::prelude::*;
use crate::metadata::{
    has_header, is_terminated, lemma_run_concat, lemma_run_push, run, scanned, started, Mode,
    Scan,
};
use crate::text::{
    is_blank, is_trimmed, is_whitespace, lemma_trim_blank_prefix, lemma_trim_is_trimmed, trim,
    trim_start,
};

verus! {

/// Whether every key of `record` is non-empty and every value trimmed.
pub open spec fn is_clean(record: Map<Seq<char>, Seq<char>>) -> bool {
    forall|key: Seq<char>| #[trigger]
        record.contains_key(key) ==> key.len() > 0 && is_trimmed(record[key])
}

/// Scanning keeps a clean record clean.
proof fn lemma_run_keeps_clean(st: Scan, text: Seq<char>)
    requires
        is_clean(st.record),
    ensures
        is_clean(run(st, text).record),
    decreases text.len(),
{
    if text.len() > 0 {
        lemma_run_keeps_clean(st, text.drop_last());
        let before = run(st, text.drop_last());
        lemma_trim_is_trimmed(before.value);
    }
}

/// Whatever the text, every key of the record read from it is non-empty, and
/// every value is free of leading and trailing white space.
pub proof fn lemma_scanned_record_is_clean(text: Seq<char>)
    ensures
        is_clean(scanned(text).record),
{
    lemma_run_keeps_clean(started(), trim_start(text).drop_first());
}

/// Whether `c` is a parenthesis or a quote.
pub open spec fn is_structural(c: char) -> bool {
    c == '(' || c == ')' || c == '"'
}

/// Whether `tag` can name a block: it holds no parenthesis and no quote.
pub open spec fn is_tag(tag: Seq<char>) -> bool {
    forall|i: int| 0 <= i < tag.len() ==> !is_structural(#[trigger] tag[i])
}

/// Whether `key` can be written as a bare key: it is not empty and holds no
/// parenthesis, quote or white space.
pub open spec fn is_bare_key(key: Seq<char>) -> bool {
    key.len() > 0 && forall|i: int|
        0 <= i < key.len() ==> !is_structural(#[trigger] key[i]) && !is_whitespace(key[i])
}

/// Whether `value` can be written between quotes: it holds no quote.
pub open spec fn is_quotable(value: Seq<char>) -> bool {
    forall|i: int| 0 <= i < value.len() ==> #[trigger] value[i] != '"'
}

/// Between pairs, the characters of a tag are passed over.
proof fn lemma_run_tag(st: Scan, tag: Seq<char>)
    requires
        st.depth == 1,
        !st.in_string,
        st.mode is AwaitingPair,
        is_tag(tag),
    ensures
        run(st, tag) == st,
    decreases tag.len(),
{
    if tag.len() > 0 {
        lemma_run_tag(st, tag.drop_last());
        assert(!is_structural(tag[tag.len() - 1]));
    }
}

/// The characters of a bare key are added to the key.
proof fn lemma_run_key(st: Scan, key: Seq<char>)
    requires
        st.depth == 2,
        !st.in_string,
        st.mode is ReadingKey,
        forall|i: int|
            0 <= i < key.len() ==> !is_structural(#[trigger] key[i]) && !is_whitespace(key[i]),
    ensures
        run(st, key) == (Scan { key: st.key + key, ..st }),
    decreases key.len(),
{
    if key.len() == 0 {
        assert(st.key + key =~= st.key);
    } else {
        lemma_run_key(st, key.drop_last());
        assert(!is_structural(key[key.len() - 1]));
        assert((st.key + key.drop_last()).push(key.last()) =~= st.key + key);
    }
}

/// Between quotes, every character but a quote is added to the value.
proof fn lemma_run_quoted(st: Scan, value: Seq<char>)
    requires
        st.depth >= 1,
        st.in_string,
        st.mode is ReadingValue,
        is_quotable(value),
    ensures
        run(st, value) == (Scan { value: st.value + value, ..st }),
    decreases value.len(),
{
    if value.len() == 0 {
        assert(st.value + value =~= st.value);
    } else {
        lemma_run_quoted(st, value.drop_last());
        assert(value[value.len() - 1] != '"');
        assert((st.value + value.drop_last()).push(value.last()) =~= st.value + value);
    }
}

/// A pair as it stands in a block that is laid out freely.
pub struct PairLayout {
    /// What stands before the pair's parenthesis: white space, as a rule.
    pub lead: Seq<char>,
    pub key: Seq<char>,
    /// The white space between the key and the value's opening quote.
    pub gap: Seq<char>,
    pub value: Seq<char>,
}

impl PairLayout {
    /// Whether the pair can be written out: the lead holds no parenthesis and
    /// no quote, the key is bare, the gap is white space and not empty, and
    /// the value holds no quote.
    pub open spec fn wf(self) -> bool {
        &&& is_tag(self.lead)
        &&& is_bare_key(self.key)
        &&& self.gap.len() > 0
        &&& is_blank(self.gap)
        &&& is_quotable(self.value)
    }

    /// The text of the pair: the lead, then `(key`, the gap, and `"value")`.
    pub open spec fn text(self) -> Seq<char> {
        self.lead + seq!['('] + self.key + self.gap + seq!['"'] + self.value + seq!['"', ')']
    }
}

/// The texts of `pairs`, one after the other.
pub open spec fn layout_text(pairs: Seq<PairLayout>) -> Seq<char>
    decreases pairs.len(),
{
    if pairs.len() == 0 {
        Seq::empty()
    } else {
        layout_text(pairs.drop_last()) + pairs.last().text()
    }
}

/// The text of a block that is laid out freely: `(tag`, the pairs, `end`, `)`.
pub open spec fn laid_out_block(tag: Seq<char>, pairs: Seq<PairLayout>, end: Seq<char>) -> Seq<
    char,
> {
    seq!['('] + tag + layout_text(pairs) + end + seq![')']
}

/// The record that holds `pairs`, each value trimmed, a later pair replacing
/// an earlier one with the same key.
pub open spec fn record_of_layout(pairs: Seq<PairLayout>) -> Map<Seq<char>, Seq<char>>
    decreases pairs.len(),
{
    if pairs.len() == 0 {
        Map::empty()
    } else {
        record_of_layout(pairs.drop_last()).insert(pairs.last().key, trim(pairs.last().value))
    }
}

/// After the key, unquoted white space is added to the value.
proof fn lemma_run_blank(st: Scan, blank: Seq<char>)
    requires
        st.depth >= 1,
        !st.in_string,
        st.mode is ReadingValue,
        is_blank(blank),
    ensures
        run(st, blank) == (Scan { value: st.value + blank, ..st }),
    decreases blank.len(),
{
    if blank.len() == 0 {
        assert(st.value + blank =~= st.value);
    } else {
        lemma_run_blank(st, blank.drop_last());
        assert(is_whitespace(blank[blank.len() - 1]));
        assert((st.value + blank.drop_last()).push(blank.last()) =~= st.value + blank);
    }
}

/// Between pairs, the text of a laid-out pair puts its key and trimmed value
/// into the record.
proof fn lemma_run_layout(st: Scan, pair: PairLayout)
    requires
        st.depth == 1,
        !st.in_string,
        st.mode is AwaitingPair,
        st.key == Seq::<char>::empty(),
        st.value == Seq::<char>::empty(),
        pair.wf(),
    ensures
        run(st, pair.text()) == (Scan {
            record: st.record.insert(pair.key, trim(pair.value)),
            ..st
        }),
{
    let empty = Seq::<char>::empty();
    let more = pair.gap.drop_first();
    let t0 = pair.lead;
    let t1 = t0.push('(');
    let t2 = t1 + pair.key;
    let t3 = t2.push(pair.gap.first());
    let t4 = t3 + more;
    let t5 = t4.push('"');
    let t6 = t5 + pair.value;
    let t7 = t6.push('"');
    let t8 = t7.push(')');
    let s1 = Scan { depth: 2, mode: Mode::ReadingKey, ..st };
    let s2 = Scan { key: pair.key, ..s1 };
    let s3 = Scan { mode: Mode::ReadingValue, ..s2 };
    let s4 = Scan { value: more, ..s3 };
    let s5 = Scan { in_string: true, ..s4 };
    let s6 = Scan { value: more + pair.value, ..s5 };
    let s7 = Scan { in_string: false, ..s6 };
    assert(is_whitespace(pair.gap[0]));
    assert(is_blank(more)) by {
        assert forall|i: int| 0 <= i < more.len() implies is_whitespace(#[trigger] more[i]) by {
            assert(more[i] == pair.gap[i + 1]);
        }
    }
    lemma_run_tag(st, t0);
    lemma_run_push(st, t0, '(');
    assert(run(st, t1) == s1);
    assert(run(st, t2) == s2) by {
        lemma_run_concat(st, t1, pair.key);
        lemma_run_key(s1, pair.key);
        assert(empty + pair.key =~= pair.key);
    }
    lemma_run_push(st, t2, pair.gap.first());
    assert(run(st, t3) == s3);
    assert(run(st, t4) == s4) by {
        lemma_run_concat(st, t3, more);
        lemma_run_blank(s3, more);
        assert(empty + more =~= more);
    }
    lemma_run_push(st, t4, '"');
    assert(run(st, t5) == s5);
    assert(run(st, t6) == s6) by {
        lemma_run_concat(st, t5, pair.value);
        lemma_run_quoted(s5, pair.value);
    }
    lemma_run_push(st, t6, '"');
    assert(run(st, t7) == s7);
    lemma_run_push(st, t7, ')');
    lemma_trim_blank_prefix(more, pair.value);
    assert(t8 =~= pair.text()) by {
        assert(seq![pair.gap.first()] + more =~= pair.gap);
        assert(t4 =~= pair.lead + seq!['('] + pair.key + pair.gap);
    }
}

/// The texts of laid-out pairs, scanned from the start of a block, put the
/// pairs into the record.
proof fn lemma_run_layouts(pairs: Seq<PairLayout>)
    requires
        forall|i: int| 0 <= i < pairs.len() ==> (#[trigger] pairs[i]).wf(),
    ensures
        run(started(), layout_text(pairs)) == (Scan {
            record: record_of_layout(pairs),
            ..started()
        }),
    decreases pairs.len(),
{
    if pairs.len() > 0 {
        let rest = pairs.drop_last();
        let last = pairs.last();
        assert(pairs[pairs.len() - 1].wf());
        lemma_run_layouts(rest);
        lemma_run_concat(started(), layout_text(rest), last.text());
        lemma_run_layout(Scan { record: record_of_layout(rest), ..started() }, last);
    }
}

/// A block reads back as its pairs however it is laid out, on one line or
/// on many: before each pair and before the closing parenthesis may stand
/// any text without parenthesis or quote, and between a key and its quoted
/// value any white space. The record holds the keys as given and each value
/// trimmed, and of two pairs with one key the later.
pub proof fn lemma_parse_laid_out_block(tag: Seq<char>, pairs: Seq<PairLayout>, end: Seq<char>)
    requires
        is_tag(tag),
        is_tag(end),
        forall|i: int| 0 <= i < pairs.len() ==> (#[trigger] pairs[i]).wf(),
    ensures
        has_header(laid_out_block(tag, pairs, end)),
        is_terminated(laid_out_block(tag, pairs, end)),
        scanned(laid_out_block(tag, pairs, end)).record == record_of_layout(pairs),
{
    let text = laid_out_block(tag, pairs, end);
    let inner = tag + layout_text(pairs) + end;
    assert(text[0] == '(');
    assert(!is_whitespace('('));
    assert(trim_start(text) == text);
    assert(text.drop_first() =~= inner.push(')'));
    lemma_run_push(started(), inner, ')');
    lemma_run_concat(started(), tag + layout_text(pairs), end);
    lemma_run_concat(started(), tag, layout_text(pairs));
    lemma_run_tag(started(), tag);
    lemma_run_layouts(pairs);
    lemma_run_tag(Scan { record: record_of_layout(pairs), ..started() }, end);
}

/// The text of a pair: ` (key "value")`.
pub open spec fn pair_text(key: Seq<char>, value: Seq<char>) -> Seq<char> {
    seq![' ', '('] + key + seq![' ', '"'] + value + seq!['"', ')']
}

/// The texts of `pairs`, one after the other.
pub open spec fn pairs_text(pairs: Seq<(Seq<char>, Seq<char>)>) -> Seq<char>
    decreases pairs.len(),
{
    if pairs.len() == 0 {
        Seq::empty()
    } else {
        pairs_text(pairs.drop_last()) + pair_text(pairs.last().0, pairs.last().1)
    }
}

/// The text of a block: `(tag (key "value") (key "value") ...)`.
pub open spec fn block_text(tag: Seq<char>, pairs: Seq<(Seq<char>, Seq<char>)>) -> Seq<char> {
    seq!['('] + tag + pairs_text(pairs) + seq![')']
}

/// The record that holds `pairs`, each value trimmed, a later pair replacing
/// an earlier one with the same key.
pub open spec fn record_of(pairs: Seq<(Seq<char>, Seq<char>)>) -> Map<Seq<char>, Seq<char>>
    decreases pairs.len(),
{
    if pairs.len() == 0 {
        Map::empty()
    } else {
        record_of(pairs.drop_last()).insert(pairs.last().0, trim(pairs.last().1))
    }
}

/// Between pairs, the text of a pair puts its key and trimmed value into the record.
proof fn lemma_run_pair(st: Scan, key: Seq<char>, value: Seq<char>)
    requires
        st.depth == 1,
        !st.in_string,
        st.mode is AwaitingPair,
        st.key == Seq::<char>::empty(),
        st.value == Seq::<char>::empty(),
        is_bare_key(key),
        is_quotable(value),
    ensures
        run(st, pair_text(key, value)) == (Scan {
            record: st.record.insert(key, trim(value)),
            ..st
        }),
{
    let pair = PairLayout { lead: seq![' '], key, gap: seq![' '], value };
    assert(is_whitespace(' '));
    assert(pair.text() =~= pair_text(key, value));
    lemma_run_layout(st, pair);
}

/// The texts of pairs, scanned from the start of a block, put the pairs into the record.
proof fn lemma_run_pairs(pairs: Seq<(Seq<char>, Seq<char>)>)
    requires
        forall|i: int|
            0 <= i < pairs.len() ==> is_bare_key(#[trigger] pairs[i].0) && is_quotable(pairs[i].1),
    ensures
        run(started(), pairs_text(pairs)) == (Scan { record: record_of(pairs), ..started() }),
    decreases pairs.len(),
{
    if pairs.len() > 0 {
        let rest = pairs.drop_last();
        let last = pairs.last();
        assert(is_bare_key(pairs[pairs.len() - 1].0));
        lemma_run_pairs(rest);
        lemma_run_concat(started(), pairs_text(rest), pair_text(last.0, last.1));
        lemma_run_pair(Scan { record: record_of(rest), ..started() }, last.0, last.1);
    }
}

/// A block written out as `(tag (key "value") (key "value") ...)`, with bare
/// keys and values that hold no quote, reads back as exactly those pairs:
/// the keys as given, each value trimmed, and of two pairs with one key the
/// later.
pub proof fn lemma_parse_block_text(tag: Seq<char>, pairs: Seq<(Seq<char>, Seq<char>)>)
    requires
        is_tag(tag),
        forall|i: int|
            0 <= i < pairs.len() ==> is_bare_key(#[trigger] pairs[i].0) && is_quotable(pairs[i].1),
    ensures
        has_header(block_text(tag, pairs)),
        is_terminated(block_text(tag, pairs)),
        scanned(block_text(tag, pairs)).record == record_of(pairs),
{
    let text = block_text(tag, pairs);
    let body = tag + pairs_text(pairs) + seq![')'];
    assert(text[0] == '(');
    assert(!is_whitespace('('));
    assert(trim_start(text) == text);
    assert(text.drop_first() =~= body);
    lemma_run_concat(started(), tag + pairs_text(pairs), seq![')']);
    lemma_run_concat(started(), tag, pairs_text(pairs));
    lemma_run_tag(started(), tag);
    lemma_run_pairs(pairs);
    lemma_run_push(run(started(), tag + pairs_text(pairs)), Seq::<char>::empty(), ')');
    assert(seq![')'] =~= Seq::<char>::empty().push(')'));
}

/// A block written out without its closing parenthesis,
/// `(tag (key "value") (key "value") ...`, has its header and is not
/// terminated.
pub proof fn lemma_parse_unclosed_block_text(tag: Seq<char>, pairs: Seq<(Seq<char>, Seq<char>)>)
    requires
        is_tag(tag),
        forall|i: int|
            0 <= i < pairs.len() ==> is_bare_key(#[trigger] pairs[i].0) && is_quotable(pairs[i].1),
    ensures
        has_header(seq!['('] + tag + pairs_text(pairs)),
        !is_terminated(seq!['('] + tag + pairs_text(pairs)),
{
    let text = seq!['('] + tag + pairs_text(pairs);
    assert(text[0] == '(');
    assert(!is_whitespace('('));
    assert(trim_start(text) == text);
    assert(text.drop_first() =~= tag + pairs_text(pairs));
    lemma_run_concat(started(), tag, pairs_text(pairs));
    lemma_run_tag(started(), tag);
    lemma_run_pairs(pairs);
}

} // verus!
