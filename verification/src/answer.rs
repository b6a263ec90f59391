//! Reading the model's answer: its `Error<..>`, `Fix<..>` and `Explain<..>`
//! lines, and the mistakes they report.
use vstd::prelude::*;
use crate::patterns::{regex_compiles, Pattern};
use crate::render::{opt_view, items_view, status_name, status_of_tag, ItemView, OutputItem, SentenceStatus};
use crate::text::{lines, trim, trimmed_lines};

verus! {

broadcast use vstd::string::group_string_axioms;

pub const ERROR_PATTERN: &'static str = r"^Error<(?P<status>[^>]+)>$";

pub const FIX_PATTERN: &'static str = r"^Fix<(?P<fix>.*)>$";

pub const EXPLAIN_PATTERN: &'static str = r"^Explain<(?P<explain>.*)>$";

/// The `status` group of `ERROR_PATTERN` on `line`: `line` is `Error<` then a
/// non-empty text without `>`, then `>`.
pub open spec fn error_line_tag(line: Seq<char>) -> Option<Seq<char>> {
    if line.len() >= 8 && line.subrange(0, 6) == "Error<"@ && line.last() == '>' && (forall|i: int|
        6 <= i < line.len() - 1 ==> line[i] != '>') {
        Some(line.subrange(6, line.len() - 1))
    } else {
        None
    }
}

/// The group of a pattern `^<prefix>(.*)>$` on `line`: `line` is `prefix`,
/// then a text without a line feed, then `>`.
pub open spec fn enclosed_text(line: Seq<char>, prefix: Seq<char>) -> Option<Seq<char>> {
    if line.len() >= prefix.len() + 1 && line.subrange(0, prefix.len() as int) == prefix && line.last()
        == '>' && (forall|i: int| prefix.len() <= i < line.len() - 1 ==> line[i] != '\n') {
        Some(line.subrange(prefix.len() as int, line.len() - 1))
    } else {
        None
    }
}

/// The `fix` group of `FIX_PATTERN` on `line`.
pub open spec fn fix_line_text(line: Seq<char>) -> Option<Seq<char>> {
    enclosed_text(line, "Fix<"@)
}

/// The `explain` group of `EXPLAIN_PATTERN` on `line`.
pub open spec fn explain_line_text(line: Seq<char>) -> Option<Seq<char>> {
    enclosed_text(line, "Explain<"@)
}

/// The tags of the `Error<..>` lines among `ls`.
pub open spec fn error_tags_of(ls: Seq<Seq<char>>) -> Seq<Seq<char>> {
    collect_captures(ls, |l: Seq<char>| error_line_tag(l))
}

/// The corrections of the `Fix<..>` lines among `ls`.
pub open spec fn fix_texts_of(ls: Seq<Seq<char>>) -> Seq<Seq<char>> {
    collect_captures(ls, |l: Seq<char>| fix_line_text(l))
}

/// The explanations of the `Explain<..>` lines among `ls`.
pub open spec fn explain_texts_of(ls: Seq<Seq<char>>) -> Seq<Seq<char>> {
    collect_captures(ls, |l: Seq<char>| explain_line_text(l))
}

/// The lines of `text`, each trimmed.
pub open spec fn trimmed_lines_of(text: Seq<char>) -> Seq<Seq<char>> {
    lines(text).map_values(|l: Seq<char>| trim(l))
}

/// The groups that `capture` finds in `ls`, in order.
pub open spec fn collect_captures(
    ls: Seq<Seq<char>>,
    capture: spec_fn(Seq<char>) -> Option<Seq<char>>,
) -> Seq<Seq<char>>
    decreases ls.len(),
{
    if ls.len() == 0 {
        seq![]
    } else {
        let rest = collect_captures(ls.drop_last(), capture);
        match capture(ls.last()) {
            Some(c) => rest.push(c),
            None => rest,
        }
    }
}

/// `ls` without its first `n` elements, or empty where it has fewer.
pub open spec fn drop_n(ls: Seq<Seq<char>>, n: int) -> Seq<Seq<char>> {
    if n <= ls.len() {
        ls.subrange(n, ls.len() as int)
    } else {
        seq![]
    }
}

/// The mistakes that the trimmed lines `ls` of an answer describe: an
/// `Error<..>` line with a known tag starts an item, whose fix and explanation
/// are read from the next two lines; `AllRight` stands alone.
pub open spec fn items_of(ls: Seq<Seq<char>>) -> Seq<ItemView>
    decreases ls.len(),
{
    if ls.len() == 0 {
        seq![]
    } else {
        match error_line_tag(ls[0]) {
            None => items_of(ls.drop_first()),
            Some(tag) => match status_of_tag(tag) {
                None => items_of(drop_n(ls, 3)),
                Some(status) => if status == SentenceStatus::AllRight {
                    seq![(status, None, None)] + items_of(ls.drop_first())
                } else {
                    let fix = if ls.len() > 1 {
                        fix_line_text(ls[1])
                    } else {
                        None
                    };
                    let explain = if ls.len() > 2 {
                        explain_line_text(ls[2])
                    } else {
                        None
                    };
                    seq![(status, fix, explain)] + items_of(drop_n(ls, 3))
                },
            },
        }
    }
}

/// The three line parsers of the model's answer.
pub struct OutputRegex {
    error_re: Pattern,
    fix_re: Pattern,
    explain_re: Pattern,
}

impl OutputRegex {
    /// Each parser is compiled from its own pattern.
    #[verifier::type_invariant]
    spec fn compiled_from_patterns(&self) -> bool {
        &&& self.error_re.source() == ERROR_PATTERN@
        &&& self.fix_re.source() == FIX_PATTERN@
        &&& self.explain_re.source() == EXPLAIN_PATTERN@
    }

    /// Compiles the three line patterns.
    pub fn new() -> (r: Result<Self, regex::Error>)
        ensures
            r is Ok <==> regex_compiles(ERROR_PATTERN@) && regex_compiles(FIX_PATTERN@)
                && regex_compiles(EXPLAIN_PATTERN@),
    {
        let error_re = Pattern::compile(ERROR_PATTERN)?;
        let fix_re = Pattern::compile(FIX_PATTERN)?;
        let explain_re = Pattern::compile(EXPLAIN_PATTERN)?;
        Ok(Self { error_re, fix_re, explain_re })
    }

    /// The tag of `line` where it is an `Error<..>` line.
    fn capture_status(&self, line: &str) -> (r: Option<String>)
        ensures
            opt_view(r) == error_line_tag(line@),
    {
        proof {
            use_type_invariant(self);
        }
        self.error_re.capture_named(line, "status")
    }

    /// The correction of `line` where it is a `Fix<..>` line.
    fn capture_fix(&self, line: &str) -> (r: Option<String>)
        ensures
            opt_view(r) == fix_line_text(line@),
    {
        proof {
            use_type_invariant(self);
        }
        self.fix_re.capture_named(line, "fix")
    }

    /// The explanation of `line` where it is an `Explain<..>` line.
    fn capture_explain(&self, line: &str) -> (r: Option<String>)
        ensures
            opt_view(r) == explain_line_text(line@),
    {
        proof {
            use_type_invariant(self);
        }
        self.explain_re.capture_named(line, "explain")
    }

    /// The tags of all `Error<..>` lines of `text`, in order.
    pub fn collect_errors(&self, text: &str) -> (r: Vec<String>)
        ensures
            r@.map_values(|s: String| s@) == error_tags_of(trimmed_lines_of(text@)),
    {
        let ls = trimmed_lines(text);
        let ghost tl = trimmed_lines_of(text@);
        assert(ls@.map_values(|s: String| s@) =~= tl);
        let mut out: Vec<String> = Vec::new();
        let mut i: usize = 0;
        while i < ls.len()
            invariant
                i <= ls@.len(),
                ls@.map_values(|s: String| s@) == tl,
                out@.map_values(|s: String| s@) == error_tags_of(tl.take(i as int)),
            decreases ls@.len() - i,
        {
            assert(tl.take(i + 1).drop_last() =~= tl.take(i as int));
            assert(tl[i as int] == ls@[i as int]@);
            match self.capture_status(ls[i].as_str()) {
                Some(c) => {
                    out.push(c);
                },
                None => {},
            }
            assert(out@.map_values(|s: String| s@) =~= error_tags_of(tl.take(i + 1)));
            i += 1;
        }
        assert(tl.take(ls@.len() as int) =~= tl);
        out
    }

    /// The corrections of all `Fix<..>` lines of `text`, in order.
    pub fn collect_fixes(&self, text: &str) -> (r: Vec<String>)
        ensures
            r@.map_values(|s: String| s@) == fix_texts_of(trimmed_lines_of(text@)),
    {
        let ls = trimmed_lines(text);
        let ghost tl = trimmed_lines_of(text@);
        assert(ls@.map_values(|s: String| s@) =~= tl);
        let mut out: Vec<String> = Vec::new();
        let mut i: usize = 0;
        while i < ls.len()
            invariant
                i <= ls@.len(),
                ls@.map_values(|s: String| s@) == tl,
                out@.map_values(|s: String| s@) == fix_texts_of(tl.take(i as int)),
            decreases ls@.len() - i,
        {
            assert(tl.take(i + 1).drop_last() =~= tl.take(i as int));
            assert(tl[i as int] == ls@[i as int]@);
            match self.capture_fix(ls[i].as_str()) {
                Some(c) => {
                    out.push(c);
                },
                None => {},
            }
            assert(out@.map_values(|s: String| s@) =~= fix_texts_of(tl.take(i + 1)));
            i += 1;
        }
        assert(tl.take(ls@.len() as int) =~= tl);
        out
    }

    /// The explanations of all `Explain<..>` lines of `text`, in order.
    pub fn collect_explains(&self, text: &str) -> (r: Vec<String>)
        ensures
            r@.map_values(|s: String| s@) == explain_texts_of(trimmed_lines_of(text@)),
    {
        let ls = trimmed_lines(text);
        let ghost tl = trimmed_lines_of(text@);
        assert(ls@.map_values(|s: String| s@) =~= tl);
        let mut out: Vec<String> = Vec::new();
        let mut i: usize = 0;
        while i < ls.len()
            invariant
                i <= ls@.len(),
                ls@.map_values(|s: String| s@) == tl,
                out@.map_values(|s: String| s@) == explain_texts_of(tl.take(i as int)),
            decreases ls@.len() - i,
        {
            assert(tl.take(i + 1).drop_last() =~= tl.take(i as int));
            assert(tl[i as int] == ls@[i as int]@);
            match self.capture_explain(ls[i].as_str()) {
                Some(c) => {
                    out.push(c);
                },
                None => {},
            }
            assert(out@.map_values(|s: String| s@) =~= explain_texts_of(tl.take(i + 1)));
            i += 1;
        }
        assert(tl.take(ls@.len() as int) =~= tl);
        out
    }

    /// The mistakes that the model's answer `text` describes.
    pub fn parse_items(&self, text: &str) -> (r: Vec<OutputItem>)
        ensures
            items_view(r@) == items_of(trimmed_lines_of(text@)),
    {
        let lines = trimmed_lines(text);
        let ghost tl = trimmed_lines_of(text@);
        assert(lines@.map_values(|s: String| s@) =~= tl);
        let mut items: Vec<OutputItem> = Vec::new();
        let mut i: usize = 0;
        assert(drop_n(tl, 0) =~= tl);
        assert(items_view(items@) + items_of(tl) =~= items_of(tl));
        while i < lines.len()
            invariant
                lines@.map_values(|s: String| s@) == tl,
                tl.len() == lines@.len(),
                i <= lines@.len(),
                items_view(items@) + items_of(drop_n(tl, i as int)) == items_of(tl),
            decreases lines@.len() - i,
        {
            let ghost rest = drop_n(tl, i as int);
            let ghost before = items_view(items@);
            assert(rest.len() > 0 && rest[0] == lines@[i as int]@);
            let line = &lines[i];
            let error_tag = self.capture_status(line.as_str());
            let tag = match error_tag {
                Some(t) => t,
                None => {
                    assert(rest.drop_first() =~= drop_n(tl, i + 1));
                    i += 1;
                    continue;
                },
            };
            let next = if lines.len() - i > 3 {
                i + 3
            } else {
                lines.len()
            };
            assert(drop_n(rest, 3) =~= drop_n(tl, next as int));
            match SentenceStatus::from_tag(tag.as_str()) {
                None => {},
                Some(status) => {
                    if status == SentenceStatus::AllRight {
                        let item = OutputItem { status, fix: None, explain: None };
                        assert(rest.drop_first() =~= drop_n(tl, i + 1));
                        assert(items_view(items@.push(item)) =~= before.push(item@));
                        assert(before + (seq![item@] + items_of(rest.drop_first())) =~= before.push(item@)
                            + items_of(rest.drop_first()));
                        items.push(item);
                        i += 1;
                        continue;
                    }
                    let fix = if i + 1 < lines.len() {
                        assert(rest[1] == lines@[i + 1]@);
                        self.capture_fix(lines[i + 1].as_str())
                    } else {
                        None
                    };
                    let explain = if i + 1 < lines.len() && i + 2 < lines.len() {
                        assert(rest[2] == lines@[i + 2]@);
                        self.capture_explain(lines[i + 2].as_str())
                    } else {
                        None
                    };
                    let item = OutputItem { status, fix, explain };
                    assert(items_view(items@.push(item)) =~= before.push(item@));
                    assert(before + (seq![item@] + items_of(drop_n(rest, 3))) =~= before.push(item@)
                        + items_of(drop_n(rest, 3)));
                    items.push(item);
                },
            }
            i = next;
        }
        assert(drop_n(tl, i as int) =~= Seq::<Seq<char>>::empty());
        assert(items_view(items@) + Seq::empty() =~= items_view(items@));
        items
    }
}

/// The lines in which the model writes one mistake: `Error<AllRight>` alone,
/// else its `Error<..>`, `Fix<..>` and `Explain<..>` lines.
pub open spec fn item_lines(item: ItemView) -> Seq<Seq<char>> {
    let error_line = "Error<"@ + status_name(item.0) + ">"@;
    if item.0 == SentenceStatus::AllRight {
        seq![error_line]
    } else {
        seq![
            error_line,
            "Fix<"@ + item.1.unwrap_or(Seq::empty()) + ">"@,
            "Explain<"@ + item.2.unwrap_or(Seq::empty()) + ">"@,
        ]
    }
}

/// The lines of an answer that reports `items`, in order.
pub open spec fn answer_lines(items: Seq<ItemView>) -> Seq<Seq<char>>
    decreases items.len(),
{
    if items.len() == 0 {
        seq![]
    } else {
        item_lines(items[0]) + answer_lines(items.drop_first())
    }
}

/// Whether an answer can report `item`: `AllRight` comes without fix and
/// explanation, any other mistake with both, each on one line.
pub open spec fn reportable(item: ItemView) -> bool {
    if item.0 == SentenceStatus::AllRight {
        item.1 is None && item.2 is None
    } else {
        &&& item.1 matches Some(f) && forall|i: int| 0 <= i < f.len() ==> f[i] != '\n'
        &&& item.2 matches Some(e) && forall|i: int| 0 <= i < e.len() ==> e[i] != '\n'
    }
}

proof fn lemma_status_round_trip(st: SentenceStatus)
    ensures
        status_of_tag(status_name(st)) == Some(st),
        status_name(st).len() > 0,
        forall|i: int| 0 <= i < status_name(st).len() ==> status_name(st)[i] != '>',
{
    reveal_strlit("AllRight");
    reveal_strlit("SpellingError");
    reveal_strlit("GrammarError");
    reveal_strlit("SyntaxError");
    reveal_strlit("TenseError");
    reveal_strlit("WordChoiceError");
    assert("AllRight"@.len() == 8);
    assert("SpellingError"@.len() == 13);
    assert("GrammarError"@.len() == 12);
    assert("SyntaxError"@.len() == 11);
    assert("TenseError"@.len() == 10);
    assert("WordChoiceError"@.len() == 15);
}

proof fn lemma_enclosed(prefix: Seq<char>, body: Seq<char>)
    requires
        forall|i: int| 0 <= i < body.len() ==> body[i] != '\n',
    ensures
        enclosed_text(prefix + body + ">"@, prefix) == Some(body),
{
    reveal_strlit(">");
    let line = prefix + body + ">"@;
    assert(line.subrange(0, prefix.len() as int) =~= prefix);
    assert(line.subrange(prefix.len() as int, line.len() - 1) =~= body);
    assert forall|i: int| prefix.len() <= i < line.len() - 1 implies line[i] != '\n' by {
        assert(line[i] == body[i - prefix.len()]);
    }
}

/// Parsing an answer gives back the mistakes it reports: where the trimmed
/// lines of `text` are those that report `items`, `parse_items` yields `items`.
pub proof fn law_parse_items_reads_answer(
    text: Seq<char>,
    items: Seq<ItemView>,
)
    requires
        forall|i: int| 0 <= i < items.len() ==> reportable(#[trigger] items[i]),
        trimmed_lines_of(text) == answer_lines(items),
    ensures
        items_of(trimmed_lines_of(text)) == items,
{
    lemma_items_of_answer(items, Seq::empty());
    assert(answer_lines(items) + Seq::<Seq<char>>::empty() =~= answer_lines(items));
    assert(items + items_of(Seq::<Seq<char>>::empty()) =~= items);
}

proof fn lemma_items_of_answer(items: Seq<ItemView>, tail: Seq<Seq<char>>)
    requires
        forall|i: int| 0 <= i < items.len() ==> reportable(#[trigger] items[i]),
    ensures
        items_of(answer_lines(items) + tail) == items + items_of(tail),
    decreases items.len(),
{
    if items.len() == 0 {
        assert(answer_lines(items) + tail =~= tail);
        assert(items + items_of(tail) =~= items_of(tail));
    } else {
        let item = items[0];
        let rest = items.drop_first();
        assert forall|i: int| 0 <= i < rest.len() implies reportable(#[trigger] rest[i]) by {
            assert(rest[i] == items[i + 1]);
        }
        lemma_items_of_answer(rest, tail);
        let ls = answer_lines(items) + tail;
        assert(answer_lines(items) == item_lines(item) + answer_lines(rest));
        let name = status_name(item.0);
        lemma_status_round_trip(item.0);
        reveal_strlit("Error<");
        reveal_strlit(">");
        let error_line = "Error<"@ + name + ">"@;
        assert(ls[0] == error_line);
        assert(error_line.subrange(0, 6) =~= "Error<"@);
        assert(error_line.subrange(6, error_line.len() - 1) =~= name);
        assert forall|i: int| 6 <= i < error_line.len() - 1 implies error_line[i] != '>' by {
            assert(error_line[i] == name[i - 6]);
        }
        assert(error_line_tag(error_line) == Some(name));
        if item.0 == SentenceStatus::AllRight {
            assert(ls.drop_first() =~= answer_lines(rest) + tail);
            assert(seq![(item.0, None::<Seq<char>>, None::<Seq<char>>)] + (rest + items_of(tail)) =~= items
                + items_of(tail));
        } else {
            let fix = item.1.unwrap();
            let explain = item.2.unwrap();
            lemma_enclosed("Fix<"@, fix);
            lemma_enclosed("Explain<"@, explain);
            assert(ls[1] == "Fix<"@ + fix + ">"@);
            assert(ls[2] == "Explain<"@ + explain + ">"@);
            assert(drop_n(ls, 3) =~= answer_lines(rest) + tail);
            assert(seq![(item.0, Some(fix), Some(explain))] + (rest + items_of(tail)) =~= items + items_of(
                tail,
            ));
        }
    }
}

/// Lines that are not `Error<..>` lines after complete groups are passed
/// over: after the groups that report `items`, parsing goes on with the rest,
/// and a blank line, or any other line that is not an `Error<..>` line,
/// between them and the rest changes nothing.
pub proof fn law_lines_between_groups_are_skipped(
    items: Seq<ItemView>,
    line: Seq<char>,
    rest: Seq<Seq<char>>,
)
    requires
        forall|i: int| 0 <= i < items.len() ==> reportable(#[trigger] items[i]),
    ensures
        items_of(answer_lines(items) + rest) == items + items_of(rest),
        items_of(answer_lines(items) + seq![Seq::<char>::empty()] + rest) == items + items_of(rest),
        error_line_tag(line) is None ==> items_of(answer_lines(items) + seq![line] + rest) == items + items_of(
            rest,
        ),
{
    lemma_items_of_answer(items, rest);
    lemma_items_of_answer(items, seq![Seq::<char>::empty()] + rest);
    lemma_items_of_answer(items, seq![line] + rest);
    assert(answer_lines(items) + seq![Seq::<char>::empty()] + rest =~= answer_lines(items) + (seq![
        Seq::<char>::empty(),
    ] + rest));
    assert(answer_lines(items) + seq![line] + rest =~= answer_lines(items) + (seq![line] + rest));
    assert((seq![Seq::<char>::empty()] + rest).drop_first() =~= rest);
    assert((seq![line] + rest).drop_first() =~= rest);
}

/// The tags of `items`, in order.
pub open spec fn tags_of(items: Seq<ItemView>) -> Seq<Seq<char>> {
    items.map_values(|it: ItemView| status_name(it.0))
}

/// The corrections of the mistakes among `items` other than `AllRight`, in order.
pub open spec fn fixes_of(items: Seq<ItemView>) -> Seq<Seq<char>>
    decreases items.len(),
{
    if items.len() == 0 {
        seq![]
    } else if items[0].0 == SentenceStatus::AllRight {
        fixes_of(items.drop_first())
    } else {
        seq![items[0].1.unwrap_or(Seq::empty())] + fixes_of(items.drop_first())
    }
}

/// The explanations of the mistakes among `items` other than `AllRight`, in order.
pub open spec fn explains_of(items: Seq<ItemView>) -> Seq<Seq<char>>
    decreases items.len(),
{
    if items.len() == 0 {
        seq![]
    } else if items[0].0 == SentenceStatus::AllRight {
        explains_of(items.drop_first())
    } else {
        seq![items[0].2.unwrap_or(Seq::empty())] + explains_of(items.drop_first())
    }
}

proof fn lemma_collect_concat(a: Seq<Seq<char>>, b: Seq<Seq<char>>, f: spec_fn(Seq<char>) -> Option<Seq<char>>)
    ensures
        collect_captures(a + b, f) == collect_captures(a, f) + collect_captures(b, f),
    decreases b.len(),
{
    if b.len() == 0 {
        assert(a + b =~= a);
        assert(collect_captures(a, f) + collect_captures(b, f) =~= collect_captures(a, f));
    } else {
        lemma_collect_concat(a, b.drop_last(), f);
        assert((a + b).drop_last() =~= a + b.drop_last());
        assert((a + b).last() == b.last());
        match f(b.last()) {
            Some(c) => {
                assert(collect_captures(a, f) + collect_captures(b.drop_last(), f).push(c) =~= (
                collect_captures(a, f) + collect_captures(b.drop_last(), f)).push(c));
            },
            None => {},
        }
    }
}

proof fn lemma_collect_one(l: Seq<char>, f: spec_fn(Seq<char>) -> Option<Seq<char>>)
    ensures
        collect_captures(seq![l], f) == (match f(l) {
            Some(c) => seq![c],
            None => Seq::<Seq<char>>::empty(),
        }),
{
    assert(seq![l].drop_last() =~= Seq::<Seq<char>>::empty());
    assert(seq![l].last() == l);
    assert(collect_captures(Seq::<Seq<char>>::empty(), f) == Seq::<Seq<char>>::empty());
    assert(collect_captures(seq![l], f) == match f(l) {
        Some(c) => collect_captures(seq![l].drop_last(), f).push(c),
        None => collect_captures(seq![l].drop_last(), f),
    });
    match f(l) {
        Some(c) => {
            assert(Seq::<Seq<char>>::empty().push(c) =~= seq![c]);
        },
        None => {},
    }
}

/// The line kinds of an answer are told apart by their first characters.
proof fn lemma_line_kinds(name: Seq<char>, fix: Seq<char>, explain: Seq<char>)
    ensures
        fix_line_text("Error<"@ + name + ">"@) is None,
        explain_line_text("Error<"@ + name + ">"@) is None,
        error_line_tag("Fix<"@ + fix + ">"@) is None,
        explain_line_text("Fix<"@ + fix + ">"@) is None,
        error_line_tag("Explain<"@ + explain + ">"@) is None,
        fix_line_text("Explain<"@ + explain + ">"@) is None,
{
    reveal_strlit("Error<");
    reveal_strlit("Fix<");
    reveal_strlit("Explain<");
    reveal_strlit(">");
    let e = "Error<"@ + name + ">"@;
    let f = "Fix<"@ + fix + ">"@;
    let x = "Explain<"@ + explain + ">"@;
    if e.len() >= 4 {
        assert(e.subrange(0, 4)[0] != "Fix<"@[0]);
    }
    if e.len() >= 8 {
        assert(e.subrange(0, 8)[1] != "Explain<"@[1]);
    }
    if f.len() >= 6 {
        assert(f.subrange(0, 6)[0] != "Error<"@[0]);
    }
    if f.len() >= 8 {
        assert(f.subrange(0, 8)[0] != "Explain<"@[0]);
    }
    if x.len() >= 6 {
        assert(x.subrange(0, 6)[1] != "Error<"@[1]);
    }
    if x.len() >= 4 {
        assert(x.subrange(0, 4)[0] != "Fix<"@[0]);
    }
}

/// Collecting the fields of an answer gives those of the mistakes it
/// reports: where the trimmed lines of `text` are those that report
/// `items`, `collect_errors` yields their tags, `collect_fixes` their
/// corrections and `collect_explains` their explanations.
pub proof fn law_collect_reads_answer(
    text: Seq<char>,
    items: Seq<ItemView>,
)
    requires
        forall|i: int| 0 <= i < items.len() ==> reportable(#[trigger] items[i]),
        trimmed_lines_of(text) == answer_lines(items),
    ensures
        error_tags_of(trimmed_lines_of(text)) == tags_of(items),
        fix_texts_of(trimmed_lines_of(text)) == fixes_of(items),
        explain_texts_of(trimmed_lines_of(text)) == explains_of(items),
{
    lemma_collect_answer(items);
}

proof fn lemma_collect_answer(items: Seq<ItemView>)
    requires
        forall|i: int| 0 <= i < items.len() ==> reportable(#[trigger] items[i]),
    ensures
        error_tags_of(answer_lines(items)) == tags_of(items),
        fix_texts_of(answer_lines(items)) == fixes_of(items),
        explain_texts_of(answer_lines(items)) == explains_of(items),
    decreases items.len(),
{
    let ef = |l: Seq<char>| error_line_tag(l);
    let ff = |l: Seq<char>| fix_line_text(l);
    let xf = |l: Seq<char>| explain_line_text(l);
    if items.len() == 0 {
        assert(tags_of(items) =~= Seq::<Seq<char>>::empty());
    } else {
        let item = items[0];
        let rest = items.drop_first();
        assert forall|i: int| 0 <= i < rest.len() implies reportable(#[trigger] rest[i]) by {
            assert(rest[i] == items[i + 1]);
        }
        lemma_collect_answer(rest);
        let name = status_name(item.0);
        lemma_status_round_trip(item.0);
        reveal_strlit("Error<");
        reveal_strlit(">");
        let error_line = "Error<"@ + name + ">"@;
        assert(error_line.subrange(0, 6) =~= "Error<"@);
        assert(error_line.subrange(6, error_line.len() - 1) =~= name);
        assert forall|i: int| 6 <= i < error_line.len() - 1 implies error_line[i] != '>' by {
            assert(error_line[i] == name[i - 6]);
        }
        assert(error_line_tag(error_line) == Some(name));
        assert(tags_of(items) =~= seq![name] + tags_of(rest));
        let fix = item.1.unwrap_or(Seq::empty());
        let explain = item.2.unwrap_or(Seq::empty());
        lemma_line_kinds(name, fix, explain);
        let head = item_lines(item);
        assert(answer_lines(items) == head + answer_lines(rest));
        lemma_collect_concat(head, answer_lines(rest), ef);
        lemma_collect_concat(head, answer_lines(rest), ff);
        lemma_collect_concat(head, answer_lines(rest), xf);
        if item.0 == SentenceStatus::AllRight {
            lemma_collect_one(error_line, ef);
            lemma_collect_one(error_line, ff);
            lemma_collect_one(error_line, xf);
            assert(Seq::<Seq<char>>::empty() + fixes_of(rest) =~= fixes_of(rest));
            assert(Seq::<Seq<char>>::empty() + explains_of(rest) =~= explains_of(rest));
        } else {
            let fix_line = "Fix<"@ + fix + ">"@;
            let explain_line = "Explain<"@ + explain + ">"@;
            lemma_enclosed("Fix<"@, fix);
            lemma_enclosed("Explain<"@, explain);
            assert(head =~= seq![error_line] + seq![fix_line] + seq![explain_line]);
            lemma_collect_concat(seq![error_line] + seq![fix_line], seq![explain_line], ef);
            lemma_collect_concat(seq![error_line], seq![fix_line], ef);
            lemma_collect_concat(seq![error_line] + seq![fix_line], seq![explain_line], ff);
            lemma_collect_concat(seq![error_line], seq![fix_line], ff);
            lemma_collect_concat(seq![error_line] + seq![fix_line], seq![explain_line], xf);
            lemma_collect_concat(seq![error_line], seq![fix_line], xf);
            lemma_collect_one(error_line, ef);
            lemma_collect_one(error_line, ff);
            lemma_collect_one(error_line, xf);
            lemma_collect_one(fix_line, ef);
            lemma_collect_one(fix_line, ff);
            lemma_collect_one(fix_line, xf);
            lemma_collect_one(explain_line, ef);
            lemma_collect_one(explain_line, ff);
            lemma_collect_one(explain_line, xf);
            assert(collect_captures(head, ef) =~= seq![name]);
            assert(collect_captures(head, ff) =~= seq![fix]);
            assert(collect_captures(head, xf) =~= seq![explain]);
        }
    }
}

/// A sentence the model finds all right carries neither a correction nor an
/// explanation: every `AllRight` item that parsing yields is bare.
pub proof fn law_all_right_items_are_bare(ls: Seq<Seq<char>>)
    ensures
        forall|i: int|
            0 <= i < items_of(ls).len() && (#[trigger] items_of(ls)[i]).0 == SentenceStatus::AllRight
                ==> items_of(ls)[i].1 is None && items_of(ls)[i].2 is None,
    decreases ls.len(),
{
    if ls.len() > 0 {
        law_all_right_items_are_bare(ls.drop_first());
        law_all_right_items_are_bare(drop_n(ls, 3));
    }
}

} // verus!
