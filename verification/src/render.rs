//! Compiler-style rendering of the mistakes found in a sentence.
use vstd::prelude::*;
use crate::text::{
    chars_of, decimal, find, first_occurrence, is_first_occurrence, occurs_at, push_range, spaces,
    split_once_arrow, str_eq, string_of, trim, trim_bounds, usize_to_decimal, join, trim_str,
    push_char, lemma_encode_utf8_concat, utf8_len, occurs_in,
};

pub use crate::answer::OutputRegex;

verus! {

broadcast use vstd::string::group_string_axioms;

pub const BRIGHT_GREEN: &'static str = "\x1b[92m";

pub const BRIGHT_YELLOW: &'static str = "\x1b[93m";

pub const BRIGHT_CYAN: &'static str = "\x1b[96m";

pub const BRIGHT_RED: &'static str = "\x1b[91m";

pub const RESET: &'static str = "\x1b[0m";

/// The verdict that one `Error<..>` line of the model gives.
#[derive(Debug, Clone, Copy, PartialEq, Eq, Structural)]
pub enum SentenceStatus {
    AllRight,
    SpellingError,
    GrammarError,
    SyntaxError,
    TenseError,
    WordChoiceError,
}

/// The tag that names `s` in the model's answer.
pub open spec fn status_name(s: SentenceStatus) -> Seq<char> {
    match s {
        SentenceStatus::AllRight => "AllRight"@,
        SentenceStatus::SpellingError => "SpellingError"@,
        SentenceStatus::GrammarError => "GrammarError"@,
        SentenceStatus::SyntaxError => "SyntaxError"@,
        SentenceStatus::TenseError => "TenseError"@,
        SentenceStatus::WordChoiceError => "WordChoiceError"@,
    }
}

/// The status that `tag` names, if any.
pub open spec fn status_of_tag(tag: Seq<char>) -> Option<SentenceStatus> {
    if tag == "AllRight"@ {
        Some(SentenceStatus::AllRight)
    } else if tag == "SpellingError"@ {
        Some(SentenceStatus::SpellingError)
    } else if tag == "GrammarError"@ {
        Some(SentenceStatus::GrammarError)
    } else if tag == "SyntaxError"@ {
        Some(SentenceStatus::SyntaxError)
    } else if tag == "TenseError"@ {
        Some(SentenceStatus::TenseError)
    } else if tag == "WordChoiceError"@ {
        Some(SentenceStatus::WordChoiceError)
    } else {
        None
    }
}

impl SentenceStatus {
    pub(crate) fn from_tag(tag: &str) -> (r: Option<Self>)
        ensures
            r == status_of_tag(tag@),
    {
        if str_eq(tag, "AllRight") {
            Some(Self::AllRight)
        } else if str_eq(tag, "SpellingError") {
            Some(Self::SpellingError)
        } else if str_eq(tag, "GrammarError") {
            Some(Self::GrammarError)
        } else if str_eq(tag, "SyntaxError") {
            Some(Self::SyntaxError)
        } else if str_eq(tag, "TenseError") {
            Some(Self::TenseError)
        } else if str_eq(tag, "WordChoiceError") {
            Some(Self::WordChoiceError)
        } else {
            None
        }
    }

    pub(crate) fn as_str(&self) -> (r: &'static str)
        ensures
            r@ == status_name(*self),
    {
        match self {
            Self::AllRight => "AllRight",
            Self::SpellingError => "SpellingError",
            Self::GrammarError => "GrammarError",
            Self::SyntaxError => "SyntaxError",
            Self::TenseError => "TenseError",
            Self::WordChoiceError => "WordChoiceError",
        }
    }
}

/// One mistake reported by the model: its kind, the correction and the explanation.
#[derive(Debug, Clone, PartialEq, Eq)]
pub struct OutputItem {
    pub status: SentenceStatus,
    pub fix: Option<String>,
    pub explain: Option<String>,
}

/// The text of an optional string.
pub open spec fn opt_view(o: Option<String>) -> Option<Seq<char>> {
    match o {
        Some(s) => Some(s@),
        None => None,
    }
}

/// What a mistake says: its kind, its correction and its explanation.
pub type ItemView = (SentenceStatus, Option<Seq<char>>, Option<Seq<char>>);

impl View for OutputItem {
    type V = ItemView;

    open spec fn view(&self) -> Self::V {
        (self.status, opt_view(self.fix), opt_view(self.explain))
    }
}

/// A sentence together with the mistakes the model found in it.
pub struct CompilerOutput {
    pub sentence: String,
    pub mistakes: Vec<OutputItem>,
}

/// The abstract contents of the mistakes of an output.
pub open spec fn items_view(items: Seq<OutputItem>) -> Seq<ItemView> {
    items.map_values(|m: OutputItem| m@)
}

impl CompilerOutput {
    pub fn new(sentence: &str, mistakes: Vec<OutputItem>) -> (r: Self)
        ensures
            r.sentence@ == sentence@,
            r.mistakes@ == mistakes@,
    {
        Self { sentence: String::from_str(sentence), mistakes }
    }
}

/// The renderer; it holds no state.
pub struct Render;

/// The message for a sentence without mistakes.
pub open spec fn all_right_text() -> Seq<char> {
    BRIGHT_GREEN@ + "Congratulations, all right!"@ + RESET@
}

/// The summary closing a run without errors.
pub open spec fn success_summary_text() -> Seq<char> {
    BRIGHT_GREEN@ + "Finished:"@ + RESET@ + " 0 errors found"@
}

/// The summary closing a run with `n` errors.
pub open spec fn error_summary_text(n: nat) -> Seq<char> {
    BRIGHT_RED@ + "error:"@ + RESET@ + " aborting due to "@ + decimal(n) + " previous errors"@
}

/// The help line of a diagnostic that suggests `help`.
pub open spec fn help_line_text(help: Seq<char>) -> Seq<char> {
    BRIGHT_GREEN@ + "help:"@ + RESET@ + " "@ + BRIGHT_GREEN@ + help + RESET@
}

/// A diagnostic in the style of a compiler error: header, location, the
/// source line with its marker, then the help and the note.
pub open spec fn diagnostic_block_text(
    error_type: Seq<char>,
    line: nat,
    column: nat,
    sentence_line: Seq<char>,
    pointer: Seq<char>,
    detail: Seq<char>,
    help: Seq<char>,
    note: Seq<char>,
) -> Seq<char> {
    let header = BRIGHT_RED@ + "error["@ + error_type + "]:"@ + RESET@ + " "@ + detail;
    let source = " --> <input>:"@ + decimal(line) + ":"@ + decimal(column);
    let pipe = "  |"@;
    let code = decimal(line) + " | "@ + sentence_line;
    let mark = "  | "@ + BRIGHT_RED@ + pointer + RESET@;
    let help_line = help_line_text(help);
    let note_line = BRIGHT_CYAN@ + "note:"@ + RESET@ + " "@ + BRIGHT_CYAN@ + note + RESET@;
    header + "\n"@ + source + "\n"@ + pipe + "\n"@ + code + "\n"@ + mark + "\n"@ + help_line
        + "\n"@ + note_line
}

/// The trimmed explanation, or `default` where there is none or it is blank.
pub open spec fn detail_or(explain: Option<Seq<char>>, default: Seq<char>) -> Seq<char> {
    match explain {
        Some(e) => if trim(e).len() > 0 {
            trim(e)
        } else {
            default
        },
        None => default,
    }
}

/// The explanation as given, or `default` where there is none.
pub open spec fn note_or(explain: Option<Seq<char>>, default: Seq<char>) -> Seq<char> {
    match explain {
        Some(e) => e,
        None => default,
    }
}

/// The misspelled and the correct word of a `wrong -> correct` fix, both trimmed and non-empty.
pub open spec fn spelling_fix_parts(fix: Seq<char>) -> Option<(Seq<char>, Seq<char>)> {
    match split_once_arrow(fix) {
        Some((w, c)) => if trim(w).len() == 0 || trim(c).len() == 0 {
            None
        } else {
            Some((trim(w), trim(c)))
        },
        None => None,
    }
}

/// The diagnostic for a spelling mistake: the first occurrence of the
/// misspelled word is highlighted and pointed at, its column counted in bytes.
pub open spec fn spelling_block(
    sentence: Seq<char>,
    item: ItemView,
) -> Option<Seq<char>> {
    match item.1 {
        None => None,
        Some(fix) => match spelling_fix_parts(fix) {
            None => None,
            Some((wrong, correct)) => match first_occurrence(sentence, wrong) {
                None => None,
                Some(k) => {
                    let hit = utf8_len(sentence.subrange(0, k));
                    let sentence_line = sentence.subrange(0, k) + BRIGHT_RED@ + wrong + RESET@
                        + sentence.subrange(k + wrong.len(), sentence.len() as int);
                    let pointer = spaces(hit) + "^^^"@;
                    let help = "Do you mean \""@ + correct + "\"?"@;
                    Some(
                        diagnostic_block_text(
                            status_name(item.0),
                            1,
                            hit + 1,
                            sentence_line,
                            pointer,
                            detail_or(item.2, "spelling issue detected"@),
                            help,
                            "this looks like a typo"@,
                        ),
                    )
                },
            },
        },
    }
}

/// The diagnostic for a mistake corrected by a whole sentence: the sentence is
/// shown in `color` and the trimmed correction is the help.
pub open spec fn whole_sentence_block(
    sentence: Seq<char>,
    item: ItemView,
    color: Seq<char>,
    default_detail: Seq<char>,
    default_note: Seq<char>,
) -> Option<Seq<char>> {
    match item.1 {
        None => None,
        Some(fix) => if trim(fix).len() == 0 {
            None
        } else {
            Some(
                diagnostic_block_text(
                    status_name(item.0),
                    1,
                    1,
                    color + sentence + RESET@,
                    color + "~~~"@ + RESET@,
                    detail_or(item.2, default_detail),
                    trim(fix),
                    note_or(item.2, default_note),
                ),
            )
        },
    }
}

/// The diagnostic for a word-choice mistake.
pub open spec fn word_choice_block(
    sentence: Seq<char>,
    item: ItemView,
) -> Option<Seq<char>> {
    whole_sentence_block(
        sentence,
        item,
        BRIGHT_YELLOW@,
        "word choice is not idiomatic"@,
        "Use more natural wording"@,
    )
}

/// The diagnostic for a grammar, syntax or tense mistake.
pub open spec fn sentence_level_block(
    sentence: Seq<char>,
    item: ItemView,
) -> Option<Seq<char>> {
    whole_sentence_block(
        sentence,
        item,
        BRIGHT_RED@,
        "sentence structure can be improved"@,
        "Review this sentence."@,
    )
}

/// The diagnostic that one mistake renders to, if any.
pub open spec fn block_for(
    sentence: Seq<char>,
    item: ItemView,
) -> Option<Seq<char>> {
    match item.0 {
        SentenceStatus::SpellingError => spelling_block(sentence, item),
        SentenceStatus::GrammarError => sentence_level_block(sentence, item),
        SentenceStatus::SyntaxError => sentence_level_block(sentence, item),
        SentenceStatus::TenseError => sentence_level_block(sentence, item),
        SentenceStatus::WordChoiceError => word_choice_block(sentence, item),
        SentenceStatus::AllRight => None,
    }
}

/// The diagnostics of the mistakes that render to one, in order.
pub open spec fn blocks_of(
    sentence: Seq<char>,
    items: Seq<ItemView>,
) -> Seq<Seq<char>>
    decreases items.len(),
{
    if items.len() == 0 {
        seq![]
    } else {
        let rest = blocks_of(sentence, items.drop_last());
        match block_for(sentence, items.last()) {
            Some(b) => rest.push(b),
            None => rest,
        }
    }
}

/// Whether the model found the sentence all right.
pub open spec fn has_all_right(items: Seq<ItemView>) -> bool {
    exists|i: int| 0 <= i < items.len() && items[i].0 == SentenceStatus::AllRight
}

/// What a sentence and its mistakes render to: the success summary where
/// the sentence is all right, else the diagnostics joined by blank lines
/// and followed by the error summary, or nothing where no mistake renders.
pub open spec fn compiler_output_text(
    sentence: Seq<char>,
    items: Seq<ItemView>,
) -> Option<Seq<char>> {
    if has_all_right(items) {
        Some(success_summary_text())
    } else {
        let blocks = blocks_of(sentence, items);
        if blocks.len() == 0 {
            None
        } else {
            Some(join(blocks, "\n\n"@) + "\n\n"@ + error_summary_text(blocks.len()))
        }
    }
}

/// The misspelled and the correct word of a `wrong -> correct` fix.
fn parse_spelling_fix(fix: &str) -> (r: Option<(String, String)>)
    ensures
        match r {
            Some((w, c)) => spelling_fix_parts(fix@) == Some((w@, c@)),
            None => spelling_fix_parts(fix@) is None,
        },
{
    let v = chars_of(fix);
    let arrow = vec!['-', '>'];
    assert(arrow@ =~= seq!['-', '>']);
    let k = match find(&v, &arrow) {
        Some(k) => k,
        None => return None,
    };
    let (a, b) = trim_bounds(&v, 0, k);
    let (c, d) = trim_bounds(&v, k + 2, v.len());
    if a == b || c == d {
        return None;
    }
    Some((string_of(&v, a, b), string_of(&v, c, d)))
}

/// The trimmed explanation, or `default` where there is none or it is blank.
fn detail_of(explain: &Option<String>, default: &str) -> (r: String)
    ensures
        r@ == detail_or(opt_view(*explain), default@),
{
    match explain {
        Some(e) => {
            let v = chars_of(e.as_str());
            let (a, b) = trim_bounds(&v, 0, v.len());
            assert(v@.subrange(0, v.len() as int) =~= v@);
            if a < b {
                string_of(&v, a, b)
            } else {
                default.to_string()
            }
        },
        None => default.to_string(),
    }
}

/// The explanation as given, or `default` where there is none.
fn note_of(explain: &Option<String>, default: &str) -> (r: String)
    ensures
        r@ == note_or(opt_view(*explain), default@),
{
    match explain {
        Some(e) => e.clone(),
        None => default.to_string(),
    }
}

impl Render {
    pub fn new() -> (r: Self) {
        Render
    }

    /// Renders a mistake on its own: only a sentence found all right renders.
    pub fn render_item(&self, item: &OutputItem) -> (r: Option<String>)
        ensures
            match r {
                Some(s) => item.status == SentenceStatus::AllRight && s@ == all_right_text(),
                None => item.status != SentenceStatus::AllRight,
            },
    {
        match item.status {
            SentenceStatus::AllRight => Some(self.render_all_right()),
            _ => None,
        }
    }

    /// Renders a sentence with its mistakes: the success summary where the
    /// sentence is all right, else every diagnostic followed by the error summary.
    pub fn render_compiler_output(&self, output: &CompilerOutput) -> (r: Option<String>)
        requires
            utf8_len(output.sentence@) < usize::MAX,
        ensures
            opt_view(r) == compiler_output_text(output.sentence@, items_view(output.mistakes@)),
    {
        let ghost items = items_view(output.mistakes@);
        let n = output.mistakes.len();
        let mut i: usize = 0;
        while i < n
            invariant
                n == output.mistakes@.len(),
                items == items_view(output.mistakes@),
                i <= n,
                forall|j: int| 0 <= j < i ==> items[j].0 != SentenceStatus::AllRight,
            decreases n - i,
        {
            if output.mistakes[i].status == SentenceStatus::AllRight {
                assert(items[i as int].0 == SentenceStatus::AllRight);
                return Some(self.render_success_summary());
            }
            i += 1;
        }
        assert(!has_all_right(items));
        let mut blocks: Vec<String> = Vec::new();
        let mut i: usize = 0;
        while i < n
            invariant
                n == output.mistakes@.len(),
                items == items_view(output.mistakes@),
                utf8_len(output.sentence@) < usize::MAX,
                i <= n,
                blocks@.len() == blocks_of(output.sentence@, items.take(i as int)).len(),
                forall|j: int| 0 <= j < blocks@.len() ==> #[trigger] blocks@[j]@ == blocks_of(output.sentence@, items.take(i as int))[j],
            decreases n - i,
        {
            let item = &output.mistakes[i];
            let block = match item.status {
                SentenceStatus::SpellingError => self.render_spelling_error(output, item),
                SentenceStatus::GrammarError => self.render_sentence_level_error(output, item),
                SentenceStatus::SyntaxError => self.render_sentence_level_error(output, item),
                SentenceStatus::TenseError => self.render_sentence_level_error(output, item),
                SentenceStatus::WordChoiceError => self.render_word_choice_error(output, item),
                _ => None,
            };
            assert(items.take(i + 1).drop_last() =~= items.take(i as int));
            assert(items.take(i + 1).last() == item@);
            assert(opt_view(block) == block_for(output.sentence@, item@));
            match block {
                Some(b) => {
                    blocks.push(b);
                },
                None => {},
            }
            i += 1;
        }
        assert(items.take(n as int) =~= items);
        let ghost bs = blocks_of(output.sentence@, items);
        if blocks.len() == 0 {
            return None;
        }
        let mut rendered = blocks[0].clone();
        let mut j: usize = 1;
        while j < blocks.len()
            invariant
                1 <= j <= blocks@.len(),
                blocks@.len() == bs.len(),
                forall|k: int| 0 <= k < blocks@.len() ==> #[trigger] blocks@[k]@ == bs[k],
                rendered@ == join(bs.take(j as int), "\n\n"@),
            decreases blocks@.len() - j,
        {
            assert(bs.take(j + 1).drop_last() =~= bs.take(j as int));
            rendered.append("\n\n");
            rendered.append(blocks[j].as_str());
            j += 1;
        }
        assert(bs.take(blocks@.len() as int) =~= bs);
        rendered.append("\n\n");
        let summary = self.render_error_summary(blocks.len());
        rendered.append(summary.as_str());
        Some(rendered)
    }

    pub fn render_all_right(&self) -> (r: String)
        ensures
            r@ == all_right_text(),
    {
        let mut s = BRIGHT_GREEN.to_string();
        s.append("Congratulations, all right!");
        s.append(RESET);
        s
    }

    fn render_success_summary(&self) -> (r: String)
        ensures
            r@ == success_summary_text(),
    {
        let mut s = BRIGHT_GREEN.to_string();
        s.append("Finished:");
        s.append(RESET);
        s.append(" 0 errors found");
        s
    }

    fn render_error_summary(&self, error_count: usize) -> (r: String)
        ensures
            r@ == error_summary_text(error_count as nat),
    {
        let mut s = BRIGHT_RED.to_string();
        s.append("error:");
        s.append(RESET);
        s.append(" aborting due to ");
        s.append(usize_to_decimal(error_count).as_str());
        s.append(" previous errors");
        s
    }

    fn render_spelling_error(&self, output: &CompilerOutput, spelling_item: &OutputItem) -> (r: Option<String>)
        requires
            utf8_len(output.sentence@) < usize::MAX,
        ensures
            opt_view(r) == spelling_block(output.sentence@, spelling_item@),
    {
        let fix = match &spelling_item.fix {
            Some(f) => f,
            None => return None,
        };
        let (wrong, correct) = match parse_spelling_fix(fix.as_str()) {
            Some(p) => p,
            None => return None,
        };
        let sv = chars_of(output.sentence.as_str());
        let wv = chars_of(wrong.as_str());
        let k = match find(&sv, &wv) {
            Some(k) => k,
            None => return None,
        };
        let sentence_len = sv.len();
        let end = k + wv.len();
        let ghost sentence = output.sentence@;
        let prefix = string_of(&sv, 0, k);
        proof {
            lemma_encode_utf8_concat(sentence.subrange(0, k as int), sentence.subrange(k as int, sentence.len() as int));
            assert(sentence.subrange(0, k as int) + sentence.subrange(k as int, sentence.len() as int) =~= sentence);
        }
        let hit = prefix.as_str().len();
        assert(hit == utf8_len(sentence.subrange(0, k as int)));
        let mut sentence_line = prefix;
        sentence_line.append(BRIGHT_RED);
        sentence_line.append(wrong.as_str());
        sentence_line.append(RESET);
        push_range(&mut sentence_line, &sv, end, sentence_len);
        let detail = detail_of(&spelling_item.explain, "spelling issue detected");
        let mut pointer = String::new();
        let mut m: usize = 0;
        while m < hit
            invariant
                m <= hit,
                pointer@ == spaces(m as nat),
            decreases hit - m,
        {
            push_char(&mut pointer, ' ');
            assert(spaces((m + 1) as nat) =~= spaces(m as nat).push(' '));
            m += 1;
        }
        pointer.append("^^^");
        let mut help = "Do you mean \"".to_string();
        help.append(correct.as_str());
        help.append("\"?");
        Some(
            self.render_diagnostic_block(
                spelling_item.status.as_str(),
                1,
                hit + 1,
                sentence_line.as_str(),
                pointer.as_str(),
                detail.as_str(),
                help.as_str(),
                "this looks like a typo",
            ),
        )
    }

    fn render_word_choice_error(&self, output: &CompilerOutput, word_choice_item: &OutputItem) -> (r: Option<String>)
        ensures
            opt_view(r) == word_choice_block(output.sentence@, word_choice_item@),
    {
        let fix = match &word_choice_item.fix {
            Some(f) => f,
            None => return None,
        };
        let correct_sentence = trim_str(fix.as_str());
        if correct_sentence.as_str().is_empty() {
            return None;
        }
        let detail = detail_of(&word_choice_item.explain, "word choice is not idiomatic");
        let mut sentence_line = BRIGHT_YELLOW.to_string();
        sentence_line.append(output.sentence.as_str());
        sentence_line.append(RESET);
        let mut pointer = BRIGHT_YELLOW.to_string();
        pointer.append("~~~");
        pointer.append(RESET);
        let note = note_of(&word_choice_item.explain, "Use more natural wording");
        Some(
            self.render_diagnostic_block(
                word_choice_item.status.as_str(),
                1,
                1,
                sentence_line.as_str(),
                pointer.as_str(),
                detail.as_str(),
                correct_sentence.as_str(),
                note.as_str(),
            ),
        )
    }

    fn render_sentence_level_error(&self, output: &CompilerOutput, item: &OutputItem) -> (r: Option<String>)
        ensures
            opt_view(r) == sentence_level_block(output.sentence@, item@),
    {
        let fix = match &item.fix {
            Some(f) => f,
            None => return None,
        };
        let correct_sentence = trim_str(fix.as_str());
        if correct_sentence.as_str().is_empty() {
            return None;
        }
        let detail = detail_of(&item.explain, "sentence structure can be improved");
        let mut sentence_line = BRIGHT_RED.to_string();
        sentence_line.append(output.sentence.as_str());
        sentence_line.append(RESET);
        let mut pointer = BRIGHT_RED.to_string();
        pointer.append("~~~");
        pointer.append(RESET);
        let note = note_of(&item.explain, "Review this sentence.");
        Some(
            self.render_diagnostic_block(
                item.status.as_str(),
                1,
                1,
                sentence_line.as_str(),
                pointer.as_str(),
                detail.as_str(),
                correct_sentence.as_str(),
                note.as_str(),
            ),
        )
    }

    fn render_diagnostic_block(
        &self,
        error_type: &str,
        line: usize,
        column: usize,
        sentence_line: &str,
        pointer: &str,
        detail: &str,
        help: &str,
        note: &str,
    ) -> (r: String)
        ensures
            r@ == diagnostic_block_text(
                error_type@,
                line as nat,
                column as nat,
                sentence_line@,
                pointer@,
                detail@,
                help@,
                note@,
            ),
    {
        let mut header = BRIGHT_RED.to_string();
        header.append("error[");
        header.append(error_type);
        header.append("]:");
        header.append(RESET);
        header.append(" ");
        header.append(detail);
        let line_text = usize_to_decimal(line);
        let mut source = " --> <input>:".to_string();
        source.append(line_text.as_str());
        source.append(":");
        source.append(usize_to_decimal(column).as_str());
        let pipe = "  |";
        let mut code = line_text.clone();
        code.append(" | ");
        code.append(sentence_line);
        let mut mark = "  | ".to_string();
        mark.append(BRIGHT_RED);
        mark.append(pointer);
        mark.append(RESET);
        let mut help_line = BRIGHT_GREEN.to_string();
        help_line.append("help:");
        help_line.append(RESET);
        help_line.append(" ");
        help_line.append(BRIGHT_GREEN);
        help_line.append(help);
        help_line.append(RESET);
        let mut note_line = BRIGHT_CYAN.to_string();
        note_line.append("note:");
        note_line.append(RESET);
        note_line.append(" ");
        note_line.append(BRIGHT_CYAN);
        note_line.append(note);
        note_line.append(RESET);
        let mut block = header;
        block.append("\n");
        block.append(source.as_str());
        block.append("\n");
        block.append(pipe);
        block.append("\n");
        block.append(code.as_str());
        block.append("\n");
        block.append(mark.as_str());
        block.append("\n");
        block.append(help_line.as_str());
        block.append("\n");
        block.append(note_line.as_str());
        block
    }
}

/// A sentence found all right renders as the success summary, whatever other
/// mistakes were reported with it.
pub proof fn law_all_right_overrides(
    sentence: Seq<char>,
    items: Seq<ItemView>,
    i: int,
)
    requires
        0 <= i < items.len(),
        items[i].0 == SentenceStatus::AllRight,
    ensures
        compiler_output_text(sentence, items) == Some(success_summary_text()),
{
}

/// A mistake without a correction renders no diagnostic, and there are never
/// more diagnostics than mistakes.
pub proof fn law_diagnostics_need_fixes(
    sentence: Seq<char>,
    items: Seq<ItemView>,
)
    ensures
        forall|i: int| 0 <= i < items.len() && (#[trigger] items[i]).1 is None ==> block_for(sentence, items[i]) is None,
        blocks_of(sentence, items).len() <= items.len(),
    decreases items.len(),
{
    if items.len() > 0 {
        law_diagnostics_need_fixes(sentence, items.drop_last());
        assert forall|i: int| 0 <= i < items.len() && (#[trigger] items[i]).1 is None implies block_for(
            sentence,
            items[i],
        ) is None by {
            if i < items.len() - 1 {
                assert(items.drop_last()[i] == items[i]);
            }
        }
    }
}

/// Highlighting a misspelled word keeps the sentence: the text before the
/// first occurrence, the word and the text after it make up the sentence,
/// and the diagnostic points at the byte offset of that occurrence.
pub proof fn law_spelling_highlight_keeps_sentence(sentence: Seq<char>, wrong: Seq<char>, k: int)
    requires
        first_occurrence(sentence, wrong) == Some(k),
    ensures
        sentence.subrange(0, k) + wrong + sentence.subrange(k + wrong.len(), sentence.len() as int)
            == sentence,
        utf8_len(sentence.subrange(0, k)) + utf8_len(wrong) <= utf8_len(sentence),
{
    assert(exists|i: int| occurs_at(sentence, wrong, i));
    let c = choose|i: int| is_first_occurrence(sentence, wrong, i);
    let w = choose|i: int| occurs_at(sentence, wrong, i);
    lemma_first_occurrence_exists(sentence, wrong, w);
    assert(c == k);
    assert(occurs_at(sentence, wrong, k));
    assert(sentence.subrange(0, k) + wrong + sentence.subrange(k + wrong.len(), sentence.len() as int)
        =~= sentence);
    lemma_encode_utf8_concat(sentence.subrange(0, k) + wrong, sentence.subrange(k + wrong.len(), sentence.len() as int));
    lemma_encode_utf8_concat(sentence.subrange(0, k), wrong);
}

/// Where `p` occurs at all, it has a first occurrence.
proof fn lemma_first_occurrence_exists(s: Seq<char>, p: Seq<char>, w: int)
    requires
        occurs_at(s, p, w),
    ensures
        exists|i: int| is_first_occurrence(s, p, i),
    decreases w,
{
    if !is_first_occurrence(s, p, w) {
        let j = choose|j: int| 0 <= j < w && occurs_at(s, p, j);
        lemma_first_occurrence_exists(s, p, j);
    }
}

/// Every diagnostic holds its help line.
proof fn lemma_help_line_in_block(
    error_type: Seq<char>,
    line: nat,
    column: nat,
    sentence_line: Seq<char>,
    pointer: Seq<char>,
    detail: Seq<char>,
    help: Seq<char>,
    note: Seq<char>,
)
    ensures
        occurs_in(
            diagnostic_block_text(error_type, line, column, sentence_line, pointer, detail, help, note),
            help_line_text(help),
        ),
{
    let header = BRIGHT_RED@ + "error["@ + error_type + "]:"@ + RESET@ + " "@ + detail;
    let source = " --> <input>:"@ + decimal(line) + ":"@ + decimal(column);
    let pipe = "  |"@;
    let code = decimal(line) + " | "@ + sentence_line;
    let mark = "  | "@ + BRIGHT_RED@ + pointer + RESET@;
    let note_line = BRIGHT_CYAN@ + "note:"@ + RESET@ + " "@ + BRIGHT_CYAN@ + note + RESET@;
    let before = header + "\n"@ + source + "\n"@ + pipe + "\n"@ + code + "\n"@ + mark + "\n"@;
    let h = help_line_text(help);
    let block = diagnostic_block_text(error_type, line, column, sentence_line, pointer, detail, help, note);
    assert(block == before + h + "\n"@ + note_line);
    let k = before.len() as int;
    assert(block.subrange(k, k + h.len()) =~= h);
    assert(occurs_at(block, h, k));
}

/// A mistake corrected by a whole sentence shows the trimmed correction as
/// its help, whatever the explanation says, also where the model left it
/// empty: a grammar, syntax, tense or word-choice mistake whose correction is
/// not blank renders a diagnostic whose help line is the trimmed correction.
pub proof fn law_whole_sentence_help_is_the_correction(
    sentence: Seq<char>,
    status: SentenceStatus,
    fix: Seq<char>,
    explain: Option<Seq<char>>,
)
    requires
        status == SentenceStatus::GrammarError || status == SentenceStatus::SyntaxError || status
            == SentenceStatus::TenseError || status == SentenceStatus::WordChoiceError,
        trim(fix).len() > 0,
    ensures
        block_for(sentence, (status, Some(fix), explain)) matches Some(b) && occurs_in(b, help_line_text(trim(fix))),
{
    let item = (status, Some(fix), explain);
    if status == SentenceStatus::WordChoiceError {
        lemma_help_line_in_block(
            status_name(status),
            1,
            1,
            BRIGHT_YELLOW@ + sentence + RESET@,
            BRIGHT_YELLOW@ + "~~~"@ + RESET@,
            detail_or(explain, "word choice is not idiomatic"@),
            trim(fix),
            note_or(explain, "Use more natural wording"@),
        );
    } else {
        lemma_help_line_in_block(
            status_name(status),
            1,
            1,
            BRIGHT_RED@ + sentence + RESET@,
            BRIGHT_RED@ + "~~~"@ + RESET@,
            detail_or(explain, "sentence structure can be improved"@),
            trim(fix),
            note_or(explain, "Review this sentence."@),
        );
    }
}

} // verus!
