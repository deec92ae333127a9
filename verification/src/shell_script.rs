//! A shallow reading of a shell script body: the commands it runs, their words, and the paths they
//! redirect into. Quoting and escaping are honoured; nothing is evaluated.

use crate::paths;
use crate::text;
use vstd::prelude::*;

verus! {

/// One command: its binary, its arguments, and the write redirections attached to it.
#[derive(Debug, PartialEq, Eq)]
pub struct Segment {
    pub binary: Option<String>,
    pub args: Vec<String>,
    /// Operator and target of each write redirection, in source order.
    pub redirections: Vec<(String, String)>,
}

/// What a [`Segment`] stands for.
#[verifier::ext_equal]
pub struct SegmentView {
    pub binary: Option<Seq<char>>,
    pub args: Seq<Seq<char>>,
    pub redirections: Seq<(Seq<char>, Seq<char>)>,
}

/// The texts of a list of pairs.
pub open spec fn pairs(v: Seq<(String, String)>) -> Seq<(Seq<char>, Seq<char>)> {
    v.map_values(|p: (String, String)| (p.0@, p.1@))
}

impl View for Segment {
    type V = SegmentView;

    open spec fn view(&self) -> SegmentView {
        SegmentView {
            binary: text::opt_text(self.binary),
            args: text::texts(self.args@),
            redirections: pairs(self.redirections@),
        }
    }
}

/// What a list of commands stands for.
pub open spec fn segment_views(v: Seq<Segment>) -> Seq<SegmentView> {
    v.map_values(|s: Segment| s@)
}

/// A command with nothing in it.
pub open spec fn no_command() -> SegmentView {
    SegmentView { binary: None, args: Seq::empty(), redirections: Seq::empty() }
}

/// Whether `c` stands at `i`.
pub open spec fn at(s: Seq<char>, i: int, c: char) -> bool {
    0 <= i < s.len() && s[i] == c
}

fn is_at(chars: &[char], i: usize, c: char) -> (r: bool)
    ensures
        r == at(chars@, i as int, c),
{
    i < chars.len() && chars[i] == c
}

/// A character that ends an unquoted word.
pub open spec fn ends_word(c: char) -> bool {
    text::is_space(c) || c == ';' || c == '|' || c == '&' || c == '<' || c == '>'
}

/// Past the blanks at `i`, newlines not among them.
pub open spec fn past_blanks(s: Seq<char>, i: int) -> int
    decreases s.len() - i,
{
    if 0 <= i < s.len() && text::is_space(s[i]) && s[i] != '\n' {
        past_blanks(s, i + 1)
    } else {
        i
    }
}

/// Past the digits at `i`.
pub open spec fn past_digits(s: Seq<char>, i: int) -> int
    decreases s.len() - i,
{
    if 0 <= i < s.len() && text::is_digit(s[i]) {
        past_digits(s, i + 1)
    } else {
        i
    }
}

/// Past the digits and dashes at `i`: a descriptor.
pub open spec fn past_descriptor(s: Seq<char>, i: int) -> int
    decreases s.len() - i,
{
    if 0 <= i < s.len() && (text::is_digit(s[i]) || s[i] == '-') {
        past_descriptor(s, i + 1)
    } else {
        i
    }
}

/// Past the `<` at `i`.
pub open spec fn past_reads(s: Seq<char>, i: int) -> int
    decreases s.len() - i,
{
    if at(s, i, '<') {
        past_reads(s, i + 1)
    } else {
        i
    }
}

/// A reading of the rest of a word.
pub struct WordView {
    /// The characters of the word.
    pub word: Seq<char>,
    /// Whether anything of a word was there, an empty pair of quotes included.
    pub seen: bool,
    /// Where the reading stopped.
    pub end: int,
}

/// The rest of a word from `i` on, inside `quote` when one is open.
pub open spec fn word_from(s: Seq<char>, i: int, quote: Option<char>) -> WordView
    decreases s.len() - i,
{
    if i < 0 || i >= s.len() {
        WordView { word: Seq::empty(), seen: false, end: i }
    } else {
        let c = s[i];
        match quote {
            Some(q) => if c == q {
                word_from(s, i + 1, None)
            } else if c == '\\' && q == '"' && i + 1 < s.len() {
                let rest = word_from(s, i + 2, quote);
                WordView { word: seq![s[i + 1]] + rest.word, ..rest }
            } else {
                let rest = word_from(s, i + 1, quote);
                WordView { word: seq![c] + rest.word, ..rest }
            },
            None => if c == '\'' || c == '"' {
                WordView { seen: true, ..word_from(s, i + 1, Some(c)) }
            } else if c == '\\' && i + 1 < s.len() {
                let rest = word_from(s, i + 2, None);
                WordView { word: seq![s[i + 1]] + rest.word, seen: true, end: rest.end }
            } else if ends_word(c) {
                WordView { word: Seq::empty(), seen: false, end: i }
            } else {
                let rest = word_from(s, i + 1, None);
                WordView { word: seq![c] + rest.word, seen: true, end: rest.end }
            },
        }
    }
}

/// The word at `i` and where reading goes on: past the character there when no word starts at it.
pub open spec fn word_at(s: Seq<char>, i: int) -> (Option<Seq<char>>, int) {
    let w = word_from(s, i, None);
    if w.seen {
        (Some(w.word), w.end)
    } else if w.end < s.len() {
        (None, w.end + 1)
    } else {
        (None, w.end)
    }
}

/// Where the `>` of the redirection written at `i` stands: past its descriptor digits and its `&`.
pub open spec fn arrow_of(s: Seq<char>, i: int) -> int {
    let digits = past_digits(s, i);
    if at(s, digits, '&') {
        digits + 1
    } else {
        digits
    }
}

/// The operator of the redirection written at `i`.
pub open spec fn operator_at(s: Seq<char>, i: int) -> Seq<char> {
    let arrow = arrow_of(s, i);
    let start = s.subrange(i, arrow).push('>');
    if at(s, arrow + 1, '>') {
        start.push('>')
    } else if at(s, arrow + 1, '|') {
        start.push('|')
    } else {
        start
    }
}

/// Where the target of the redirection written at `i` starts.
pub open spec fn target_at(s: Seq<char>, i: int) -> int {
    let after = arrow_of(s, i) + 1;
    if at(s, after, '>') || at(s, after, '|') {
        past_blanks(s, after + 1)
    } else {
        past_blanks(s, after)
    }
}

/// The redirection written at `i`: its operator, the path it writes to unless it names a
/// descriptor, and where reading goes on.
pub open spec fn redirection_at(s: Seq<char>, i: int) -> (Seq<char>, Option<Seq<char>>, int) {
    let target = target_at(s, i);
    if at(s, target, '&') {
        (operator_at(s, i), None, past_descriptor(s, target + 1))
    } else {
        let (word, next) = word_at(s, target);
        (operator_at(s, i), word, next)
    }
}

/// One thing a script is made of.
pub enum Token {
    /// Nothing a command keeps: a blank, a read redirection, a stray character.
    Nothing,
    /// The end of a command.
    Stop,
    /// A write redirection into a path.
    Redirect(Seq<char>, Seq<char>),
    /// A word.
    Word(Seq<char>),
}

/// The redirection at `i` as a token.
pub open spec fn redirect_token(s: Seq<char>, i: int) -> (Token, int) {
    let (operator, target, next) = redirection_at(s, i);
    match target {
        Some(path) => (Token::Redirect(operator, path), next),
        None => (Token::Nothing, next),
    }
}

/// What stands at `i`, and where reading goes on.
pub open spec fn token_at(s: Seq<char>, i: int) -> (Token, int) {
    let c = s[i];
    if text::is_space(c) {
        (Token::Nothing, i + 1)
    } else if c == ';' {
        (Token::Stop, i + 1)
    } else if c == '|' {
        (Token::Stop, if at(s, i + 1, '|') { i + 2 } else { i + 1 })
    } else if c == '&' && !at(s, i + 1, '>') {
        (Token::Stop, if at(s, i + 1, '&') { i + 2 } else { i + 1 })
    } else if c == '<' {
        (Token::Nothing, word_at(s, past_blanks(s, past_reads(s, i + 1))).1)
    } else if c == '&' || c == '>' || (text::is_digit(c) && at(s, past_digits(s, i), '>')) {
        redirect_token(s, i)
    } else {
        match word_at(s, i) {
            (Some(word), next) => (Token::Word(word), next),
            (None, next) => (Token::Nothing, next),
        }
    }
}

/// A command as the list it adds to: itself when it names a binary or redirects, else nothing.
pub open spec fn flushed(current: SegmentView) -> Seq<SegmentView> {
    if current.binary is Some || current.redirections.len() > 0 {
        seq![current]
    } else {
        Seq::empty()
    }
}

/// The command with a word added: its binary first, its arguments after.
pub open spec fn with_word(current: SegmentView, word: Seq<char>) -> SegmentView {
    match current.binary {
        None => SegmentView { binary: Some(paths::base_name_of(word)), ..current },
        Some(_) => SegmentView { args: current.args.push(word), ..current },
    }
}

/// The commands from `i` on, the first of them already holding `current`.
pub open spec fn commands(s: Seq<char>, i: int, current: SegmentView) -> Seq<SegmentView>
    decreases s.len() - i,
{
    if i < 0 || i >= s.len() {
        flushed(current)
    } else {
        proof {
            reading_moves_on(s, i);
        }
        let (token, next) = token_at(s, i);
        match token {
            Token::Nothing => commands(s, next, current),
            Token::Stop => flushed(current) + commands(s, next, no_command()),
            Token::Redirect(operator, target) => commands(
                s,
                next,
                SegmentView {
                    redirections: current.redirections.push((operator, target)),
                    ..current
                },
            ),
            Token::Word(word) => commands(s, next, with_word(current, word)),
        }
    }
}

/// The commands a script body runs.
pub open spec fn script_commands(body: Seq<char>) -> Seq<SegmentView> {
    commands(body, 0, no_command())
}

proof fn lemma_runs(s: Seq<char>, i: int)
    requires
        0 <= i <= s.len(),
    ensures
        i <= past_blanks(s, i) <= s.len(),
        i <= past_digits(s, i) <= s.len(),
        i <= past_descriptor(s, i) <= s.len(),
        i <= past_reads(s, i) <= s.len(),
    decreases s.len() - i,
{
    if i < s.len() {
        lemma_runs(s, i + 1);
    }
}

proof fn lemma_word(s: Seq<char>, i: int, quote: Option<char>)
    requires
        0 <= i <= s.len(),
    ensures
        i <= word_from(s, i, quote).end <= s.len(),
        quote is None && word_from(s, i, quote).seen ==> word_from(s, i, quote).end > i,
    decreases s.len() - i,
{
    if i < s.len() {
        lemma_word(s, i + 1, quote);
        lemma_word(s, i + 1, None);
        lemma_word(s, i + 1, Some(s[i]));
        if i + 1 < s.len() {
            lemma_word(s, i + 2, quote);
            lemma_word(s, i + 2, None);
        }
    }
}

/// Reading always moves on, and never past the end.
pub proof fn reading_moves_on(s: Seq<char>, i: int)
    requires
        0 <= i < s.len(),
    ensures
        i < token_at(s, i).1 <= s.len(),
{
    let c = s[i];
    lemma_runs(s, i);
    lemma_runs(s, i + 1);
    lemma_word(s, i, None);
    if c == '<' {
        let reads = past_reads(s, i + 1);
        lemma_runs(s, reads);
        lemma_word(s, past_blanks(s, reads), None);
    } else if c == '&' || c == '>' || (text::is_digit(c) && at(s, past_digits(s, i), '>')) {
        if c == '&' && !at(s, i + 1, '>') {
        } else {
            lemma_redirection(s, i);
        }
    }
}

proof fn lemma_redirection(s: Seq<char>, i: int)
    requires
        0 <= i < s.len(),
        at(s, arrow_of(s, i), '>'),
    ensures
        i <= arrow_of(s, i),
        i < target_at(s, i) <= s.len(),
        i < redirection_at(s, i).2 <= s.len(),
{
    lemma_runs(s, i);
    let after = arrow_of(s, i) + 1;
    lemma_runs(s, after);
    if after < s.len() {
        lemma_runs(s, after + 1);
    }
    let target = target_at(s, i);
    lemma_word(s, target, None);
    if target < s.len() {
        lemma_runs(s, target + 1);
    }
}

/// Past the blanks at `i`, newlines not among them.
pub fn skip_spaces(chars: &[char], from: usize) -> (r: usize)
    requires
        from <= chars@.len(),
    ensures
        r == past_blanks(chars@, from as int),
        r <= chars@.len(),
{
    let total: usize = chars.len();
    let mut i: usize = from;
    while i < total && text::space(chars[i]) && chars[i] != '\n'
        invariant
            i <= total == chars@.len(),
            past_blanks(chars@, i as int) == past_blanks(chars@, from as int),
        decreases total - i,
    {
        i += 1;
    }
    i
}

/// Past the digits at `i`.
fn skip_digits(chars: &[char], from: usize) -> (r: usize)
    requires
        from <= chars@.len(),
    ensures
        r == past_digits(chars@, from as int),
        from <= r <= chars@.len(),
{
    let total: usize = chars.len();
    let mut i: usize = from;
    while i < total && '0' <= chars[i] && chars[i] <= '9'
        invariant
            from <= i <= total == chars@.len(),
            past_digits(chars@, i as int) == past_digits(chars@, from as int),
        decreases total - i,
    {
        i += 1;
    }
    i
}

/// One shell word starting at `from`, and where reading goes on.
pub fn read_word(chars: &[char], from: usize) -> (r: (Option<String>, usize))
    requires
        from <= chars@.len(),
    ensures
        (text::opt_text(r.0), r.1 as int) == word_at(chars@, from as int),
        r.1 <= chars@.len(),
{
    let total: usize = chars.len();
    let ghost s = chars@;
    let ghost whole = word_from(s, from as int, None);
    let mut word = String::new();
    let mut saw_any = false;
    let mut quote: Option<char> = None;
    let mut i: usize = from;
    let mut done = false;
    proof {
        assert(word@ + whole.word =~= whole.word);
    }
    while i < total && !done
        invariant
            i <= total == chars@.len(),
            s == chars@,
            whole == word_from(s, from as int, None),
            whole.word == word@ + word_from(s, i as int, quote).word,
            whole.seen == (saw_any || word_from(s, i as int, quote).seen),
            whole.end == word_from(s, i as int, quote).end,
            quote is Some ==> saw_any,
            done ==> word_from(s, i as int, quote) == (WordView {
                word: Seq::empty(),
                seen: false,
                end: i as int,
            }),
        decreases
            total - i,
            if done {
                0int
            } else {
                1int
            },
    {
        let c = chars[i];
        let ghost before = word@;
        let ghost rest = word_from(s, i as int, quote);
        match quote {
            Some(q) => {
                if c == q {
                    quote = None;
                    i += 1;
                } else if c == '\\' && q == '"' && i + 1 < total {
                    word.push(chars[i + 1]);
                    i += 2;
                    proof {
                        assert(before + rest.word =~= word@ + word_from(s, i as int, quote).word);
                    }
                } else {
                    word.push(c);
                    i += 1;
                    proof {
                        assert(before + rest.word =~= word@ + word_from(s, i as int, quote).word);
                    }
                }
            },
            None => {
                if c == '\'' || c == '"' {
                    quote = Some(c);
                    saw_any = true;
                    i += 1;
                } else if c == '\\' && i + 1 < total {
                    word.push(chars[i + 1]);
                    saw_any = true;
                    i += 2;
                    proof {
                        assert(before + rest.word =~= word@ + word_from(s, i as int, quote).word);
                    }
                } else if text::space(c) || c == ';' || c == '|' || c == '&' || c == '<' || c
                    == '>' {
                    done = true;
                } else {
                    word.push(c);
                    saw_any = true;
                    i += 1;
                    proof {
                        assert(before + rest.word =~= word@ + word_from(s, i as int, quote).word);
                    }
                }
            },
        }
    }
    proof {
        let rest = word_from(s, i as int, quote);
        assert(rest.word.len() == 0);
        assert(rest.end == i);
        assert(whole.word =~= word@);
    }
    if saw_any {
        (Some(word), i)
    } else if i < total {
        (None, i + 1)
    } else {
        (None, i)
    }
}

/// The redirection written at `from`: its operator, the path it writes to unless it names a
/// descriptor, and where reading goes on.
pub fn read_redirection(chars: &[char], from: usize) -> (r: (String, Option<String>, usize))
    requires
        from < chars@.len(),
        at(chars@, arrow_of(chars@, from as int), '>'),
    ensures
        (r.0@, text::opt_text(r.1), r.2 as int) == redirection_at(chars@, from as int),
        r.2 <= chars@.len(),
{
    let total: usize = chars.len();
    let ghost s = chars@;
    proof {
        lemma_redirection(s, from as int);
    }
    let mut arrow: usize = skip_digits(chars, from);
    if is_at(chars, arrow, '&') {
        arrow += 1;
    }
    let mut operator = text::slice_text(chars, from, arrow);
    operator.push('>');
    let mut after: usize = arrow + 1;
    if is_at(chars, after, '>') {
        operator.push('>');
        after += 1;
    } else if is_at(chars, after, '|') {
        operator.push('|');
        after += 1;
    }
    let mut cursor: usize = skip_spaces(chars, after);
    if is_at(chars, cursor, '&') {
        cursor += 1;
        let ghost start = cursor as int;
        while cursor < total && ('0' <= chars[cursor] && chars[cursor] <= '9' || chars[cursor]
            == '-')
            invariant
                cursor <= total == chars@.len(),
                past_descriptor(chars@, cursor as int) == past_descriptor(chars@, start),
            decreases total - cursor,
        {
            cursor += 1;
        }
        return (operator, None, cursor);
    }
    let (word, next) = read_word(chars, cursor);
    (operator, word, next)
}

fn empty_segment() -> (r: Segment)
    ensures
        r@ == no_command(),
{
    let r = Segment { binary: None, args: Vec::new(), redirections: Vec::new() };
    proof {
        assert(text::texts(r.args@) =~= Seq::<Seq<char>>::empty());
        assert(pairs(r.redirections@) =~= Seq::<(Seq<char>, Seq<char>)>::empty());
    }
    r
}

/// Adds a finished command to the list.
fn flush(current: Segment, segments: &mut Vec<Segment>)
    ensures
        segment_views(final(segments)@) == segment_views(old(segments)@) + flushed(current@),
{
    let ghost before = segments@;
    if current.binary.is_some() || current.redirections.len() > 0 {
        let ghost added = current@;
        segments.push(current);
        proof {
            assert(segment_views(segments@) =~= segment_views(before) + seq![added]);
        }
    } else {
        proof {
            assert(segment_views(before) + Seq::<SegmentView>::empty() =~= segment_views(before));
        }
    }
}

/// Adds the redirection at `from` to a command, and says where reading goes on.
fn take_redirection(chars: &[char], from: usize, current: &mut Segment) -> (next: usize)
    requires
        from < chars@.len(),
        at(chars@, arrow_of(chars@, from as int), '>'),
    ensures
        next == redirection_at(chars@, from as int).2,
        next <= chars@.len(),
        final(current)@ == (match redirection_at(chars@, from as int).1 {
            Some(target) => SegmentView {
                redirections: old(current)@.redirections.push(
                    (redirection_at(chars@, from as int).0, target),
                ),
                ..old(current)@
            },
            None => old(current)@,
        }),
{
    let ghost before = current@;
    let (operator, target, next) = read_redirection(chars, from);
    if let Some(path) = target {
        let ghost added = (operator@, path@);
        current.redirections.push((operator, path));
        proof {
            assert(current@.redirections =~= before.redirections.push(added));
        }
    }
    next
}

/// The commands a script body runs. `;`, `|`, `||`, `&` and `&&` end a command; no substitution,
/// expansion or alias is evaluated.
pub fn scan_script(body: &str) -> (r: Vec<Segment>)
    ensures
        segment_views(r@) == script_commands(body@),
{
    let chars = text::chars_of(body);
    let total: usize = chars.len();
    let ghost s = body@;
    let mut segments: Vec<Segment> = Vec::new();
    let mut current = empty_segment();
    let mut i: usize = 0;
    proof {
        assert(segment_views(segments@) + script_commands(s) =~= script_commands(s));
    }
    while i < total
        invariant
            i <= total == chars@.len(),
            chars@ == s,
            s == body@,
            segment_views(segments@) + commands(s, i as int, current@) == script_commands(s),
        decreases total - i,
    {
        let c = chars[i];
        let ghost done = segment_views(segments@);
        let ghost held = current@;
        let ghost here = i as int;
        proof {
            reading_moves_on(s, here);
            lemma_runs(s, here);
        }
        if text::space(c) {
            i += 1;
        } else if c == ';' || c == '|' || (c == '&' && !is_at(&chars, i + 1, '>')) {
            flush(current, &mut segments);
            current = empty_segment();
            i += if c != ';' && is_at(&chars, i + 1, c) {
                2
            } else {
                1
            };
            proof {
                let rest = commands(s, i as int, no_command());
                assert(done + (flushed(held) + rest) =~= done + flushed(held) + rest);
            }
        } else if c == '<' {
            let mut reads: usize = i + 1;
            while is_at(&chars, reads, '<')
                invariant
                    here < reads <= total == chars@.len(),
                    chars@ == s,
                    past_reads(s, reads as int) == past_reads(s, here + 1),
                decreases total - reads,
            {
                reads += 1;
            }
            let (_, next) = read_word(&chars, skip_spaces(&chars, reads));
            i = next;
        } else {
            let digits: usize = skip_digits(&chars, i);
            if c == '&' || c == '>' || (digits > i && is_at(&chars, digits, '>')) {
                i = take_redirection(&chars, i, &mut current);
            } else {
                let (word, next) = read_word(&chars, i);
                i = next;
                if let Some(word) = word {
                    if current.binary.is_none() {
                        current.binary = Some(paths::base_name(word.as_str()));
                    } else {
                        let ghost args = current.args@;
                        current.args.push(word);
                        proof {
                            assert(text::texts(current.args@) =~= text::texts(args).push(word@));
                        }
                    }
                    proof {
                        assert(current@ =~= with_word(held, word@));
                    }
                }
            }
        }
    }
    flush(current, &mut segments);
    segments
}

// ── Laws ─────────────────────────────────────────────────────────────────────

/// Every command read names a binary or redirects somewhere.
pub proof fn no_empty_command_is_read(s: Seq<char>, i: int, current: SegmentView)
    ensures
        forall|k: int|
            0 <= k < commands(s, i, current).len() ==> {
                let command = #[trigger] commands(s, i, current)[k];
                command.binary is Some || command.redirections.len() > 0
            },
    decreases s.len() - i,
{
    if 0 <= i < s.len() {
        reading_moves_on(s, i);
        let (token, next) = token_at(s, i);
        match token {
            Token::Nothing => {
                no_empty_command_is_read(s, next, current);
            },
            Token::Stop => {
                no_empty_command_is_read(s, next, no_command());
            },
            Token::Redirect(operator, target) => {
                no_empty_command_is_read(
                    s,
                    next,
                    SegmentView {
                        redirections: current.redirections.push((operator, target)),
                        ..current
                    },
                );
            },
            Token::Word(word) => {
                no_empty_command_is_read(s, next, with_word(current, word));
            },
        }
    }
}

// What a text reads as does not depend on what stands in front of it.

proof fn lemma_shift_runs(p: Seq<char>, b: Seq<char>, i: int)
    requires
        0 <= i,
    ensures
        past_blanks(p + b, p.len() + i) == p.len() + past_blanks(b, i),
        past_digits(p + b, p.len() + i) == p.len() + past_digits(b, i),
        past_descriptor(p + b, p.len() + i) == p.len() + past_descriptor(b, i),
        past_reads(p + b, p.len() + i) == p.len() + past_reads(b, i),
    decreases b.len() - i,
{
    if i < b.len() {
        assert((p + b)[p.len() + i] == b[i]);
        lemma_shift_runs(p, b, i + 1);
    }
}

proof fn lemma_shift_word(p: Seq<char>, b: Seq<char>, i: int, quote: Option<char>)
    requires
        0 <= i,
    ensures
        ({
            let moved = word_from(p + b, p.len() + i, quote);
            let own = word_from(b, i, quote);
            moved.word == own.word && moved.seen == own.seen && moved.end == p.len() + own.end
        }),
    decreases b.len() - i,
{
    if i < b.len() {
        let s = p + b;
        assert(s[p.len() + i] == b[i]);
        lemma_shift_word(p, b, i + 1, quote);
        lemma_shift_word(p, b, i + 1, None);
        lemma_shift_word(p, b, i + 1, Some(b[i]));
        if i + 1 < b.len() {
            assert(s[p.len() + i + 1] == b[i + 1]);
            lemma_shift_word(p, b, i + 2, quote);
            lemma_shift_word(p, b, i + 2, None);
        }
    }
}

proof fn lemma_shift_word_at(p: Seq<char>, b: Seq<char>, i: int)
    requires
        0 <= i,
    ensures
        word_at(p + b, p.len() + i) == (word_at(b, i).0, p.len() + word_at(b, i).1),
{
    lemma_shift_word(p, b, i, None);
}

proof fn lemma_shift_at(p: Seq<char>, b: Seq<char>, i: int, c: char)
    requires
        0 <= i,
    ensures
        at(p + b, p.len() + i, c) == at(b, i, c),
{
    if i < b.len() {
        assert((p + b)[p.len() + i] == b[i]);
    }
}

proof fn lemma_shift_redirection(p: Seq<char>, b: Seq<char>, i: int)
    requires
        0 <= i <= b.len(),
        arrow_of(b, i) <= b.len(),
    ensures
        redirection_at(p + b, p.len() + i) == (
            redirection_at(b, i).0,
            redirection_at(b, i).1,
            p.len() + redirection_at(b, i).2,
        ),
{
    let s = p + b;
    let n = p.len() as int;
    lemma_runs(b, i);
    lemma_shift_runs(p, b, i);
    let digits = past_digits(b, i);
    lemma_shift_at(p, b, digits, '&');
    let arrow = arrow_of(b, i);
    assert(arrow_of(s, n + i) == n + arrow);
    assert(s.subrange(n + i, n + arrow) =~= b.subrange(i, arrow));
    lemma_shift_at(p, b, arrow + 1, '>');
    lemma_shift_at(p, b, arrow + 1, '|');
    lemma_shift_runs(p, b, arrow + 1);
    lemma_shift_runs(p, b, arrow + 2);
    let target = target_at(b, i);
    assert(target_at(s, n + i) == n + target);
    if arrow + 1 <= b.len() {
        lemma_runs(b, arrow + 1);
    }
    if arrow + 2 <= b.len() {
        lemma_runs(b, arrow + 2);
    }
    assert(target >= 0);
    lemma_shift_at(p, b, target, '&');
    lemma_shift_runs(p, b, target + 1);
    lemma_shift_word_at(p, b, target);
}

proof fn lemma_shift_token(p: Seq<char>, b: Seq<char>, i: int)
    requires
        0 <= i < b.len(),
    ensures
        token_at(p + b, p.len() + i) == (token_at(b, i).0, p.len() + token_at(b, i).1),
{
    let s = p + b;
    assert(s[p.len() + i] == b[i]);
    lemma_runs(b, i);
    lemma_runs(b, i + 1);
    lemma_shift_runs(p, b, i);
    lemma_shift_runs(p, b, i + 1);
    lemma_shift_at(p, b, i + 1, '|');
    lemma_shift_at(p, b, i + 1, '&');
    lemma_shift_at(p, b, i + 1, '>');
    lemma_shift_at(p, b, past_digits(b, i), '>');
    lemma_shift_word_at(p, b, i);
    let reads = past_reads(b, i + 1);
    lemma_runs(b, reads);
    lemma_shift_runs(p, b, reads);
    lemma_shift_word_at(p, b, past_blanks(b, reads));
    lemma_shift_redirection(p, b, i);
}

/// Behind a finished command the rest of a script reads as it does on its own.
proof fn lemma_shift_commands(p: Seq<char>, b: Seq<char>, i: int, current: SegmentView)
    requires
        0 <= i <= b.len(),
    ensures
        commands(p + b, p.len() + i, current) == commands(b, i, current),
    decreases b.len() - i,
{
    if i < b.len() {
        reading_moves_on(b, i);
        lemma_shift_token(p, b, i);
        let (token, next) = token_at(b, i);
        match token {
            Token::Nothing => lemma_shift_commands(p, b, next, current),
            Token::Stop => lemma_shift_commands(p, b, next, no_command()),
            Token::Redirect(operator, target) => lemma_shift_commands(
                p,
                b,
                next,
                SegmentView {
                    redirections: current.redirections.push((operator, target)),
                    ..current
                },
            ),
            Token::Word(word) => lemma_shift_commands(p, b, next, with_word(current, word)),
        }
    }
}

/// A character that stands for itself: no quote, no escape, and nothing that separates commands or
/// redirects.
pub open spec fn is_plain_char(c: char) -> bool {
    c != '\'' && c != '"' && c != '\\' && c != ';' && c != '|' && c != '&' && c != '<' && c != '>'
}

/// Whether a text is blanks and characters that stand for themselves.
pub open spec fn is_plain(s: Seq<char>) -> bool {
    forall|i: int| 0 <= i < s.len() ==> is_plain_char(#[trigger] s[i])
}

/// The command with words added, one after another.
spec fn with_words(current: SegmentView, words: Seq<Seq<char>>) -> SegmentView
    decreases words.len(),
{
    if words.len() == 0 {
        current
    } else {
        with_words(with_word(current, words[0]), words.drop_first())
    }
}

/// A word of characters that stand for themselves reads as it is written.
proof fn lemma_plain_word(s: Seq<char>, j: int, e: int)
    requires
        0 <= j <= e <= s.len(),
        forall|k: int| j <= k < e ==> is_plain_char(#[trigger] s[k]) && !text::is_space(s[k]),
        e < s.len() ==> ends_word(s[e]),
        e < s.len() ==> s[e] != '\'' && s[e] != '"' && s[e] != '\\',
    ensures
        word_from(s, j, None).word == s.subrange(j, e),
        word_from(s, j, None).seen == (j < e),
        word_from(s, j, None).end == e,
    decreases e - j,
{
    if j < e {
        lemma_plain_word(s, j + 1, e);
        assert(is_plain_char(s[j]) && !text::is_space(s[j]));
        assert(s.subrange(j, e) =~= seq![s[j]] + s.subrange(j + 1, e));
    } else {
        assert(s.subrange(j, e) =~= Seq::<char>::empty());
    }
}

/// Whether what stands behind a plain text ends its last word, and cannot be taken for a
/// redirection of it.
spec fn ends_plain(x: Seq<char>) -> bool {
    x.len() == 0 || x[0] == ';' || x[0] == '|' || x[0] == '&'
}

/// A plain text adds its words to the command.
proof fn lemma_plain(a: Seq<char>, x: Seq<char>, i: int, current: SegmentView)
    requires
        is_plain(a),
        0 <= i <= a.len(),
        ends_plain(x) || a.len() == 0 || text::is_space(a.last()),
    ensures
        commands(a + x, i, current) == commands(
            a + x,
            a.len() as int,
            with_words(current, text::words(a.skip(i))),
        ),
    decreases a.len() - i,
{
    let s = a + x;
    let rest = a.skip(i);
    if i == a.len() {
        assert(rest.len() == 0);
        assert(text::trim_start(rest).len() == 0);
        assert(text::words(rest).len() == 0);
    } else {
        assert(s[i] == a[i]);
        assert(is_plain_char(a[i]));
        reading_moves_on(s, i);
        if text::is_space(a[i]) {
            lemma_plain(a, x, i + 1, current);
            lemma_words_skip_blank(rest);
            assert(rest.drop_first() =~= a.skip(i + 1));
        } else {
            let p = |c: char| !text::is_space(c);
            text::lemma_run(rest, p);
            let n = text::run(rest, p) as int;
            let e = i + n;
            assert(n > 0);
            assert forall|k: int| i <= k < e implies is_plain_char(#[trigger] s[k])
                && !text::is_space(s[k]) by {
                assert(p(rest[k - i]));
                assert(s[k] == rest[k - i]);
                assert(is_plain_char(a[k]));
            }
            if e < a.len() {
                assert(!p(rest[n]));
                assert(s[e] == rest[n]);
            } else if x.len() > 0 {
                assert(s[e] == x[0]);
                assert(p(rest[n - 1]));
                assert(a.last() == rest[n - 1]);
            }
            lemma_plain_word(s, i, e);
            lemma_plain_digits(s, i, e);
            let word = s.subrange(i, e);
            assert(token_at(s, i) == (Token::Word(word), e));
            lemma_plain(a, x, e, with_word(current, word));
            lemma_words_first(rest, n);
            assert(rest.take(n) =~= word);
            assert(rest.skip(n) =~= a.skip(e));
            let all = text::words(rest);
            assert(all[0] == word);
            assert(all.drop_first() =~= text::words(a.skip(e)));
        }
    }
}

/// The digits of a plain word have no arrow behind them.
proof fn lemma_plain_digits(s: Seq<char>, i: int, e: int)
    requires
        0 <= i <= e <= s.len(),
        forall|k: int| i <= k < e ==> is_plain_char(#[trigger] s[k]),
        e < s.len() ==> s[e] != '>' && !text::is_digit(s[e]),
    ensures
        !at(s, past_digits(s, i), '>'),
    decreases e - i,
{
    if i < e {
        assert(is_plain_char(s[i]));
        lemma_plain_digits(s, i + 1, e);
    }
}

proof fn lemma_words_skip_blank(s: Seq<char>)
    requires
        s.len() > 0,
        text::is_space(s[0]),
    ensures
        text::words(s) == text::words(s.drop_first()),
{
    let p = |c: char| text::is_space(c);
    assert(text::run(s, p) == 1 + text::run(s.drop_first(), p));
    text::lemma_run(s.drop_first(), p);
    assert(text::trim_start(s) =~= text::trim_start(s.drop_first()));
}

proof fn lemma_words_first(s: Seq<char>, n: int)
    requires
        0 < n <= s.len(),
        n == text::run(s, |c: char| !text::is_space(c)),
        !text::is_space(s[0]),
    ensures
        text::words(s) == seq![s.take(n)] + text::words(s.skip(n)),
{
    let p = |c: char| text::is_space(c);
    assert(!p(s[0]));
    assert(text::run(s, p) == 0);
    assert(text::trim_start(s) =~= s);
}

proof fn lemma_with_words(current: SegmentView, words: Seq<Seq<char>>)
    requires
        current.binary is Some,
    ensures
        with_words(current, words) == (SegmentView { args: current.args + words, ..current }),
    decreases words.len(),
{
    if words.len() > 0 {
        lemma_with_words(with_word(current, words[0]), words.drop_first());
        assert(current.args.push(words[0]) + words.drop_first() =~= current.args + words);
    } else {
        assert(current.args + words =~= current.args);
    }
}

/// The command that a list of words makes: the file name of the first is its binary, and the others
/// are its arguments.
pub open spec fn command_of(words: Seq<Seq<char>>) -> SegmentView {
    SegmentView {
        binary: Some(paths::base_name_of(words[0])),
        args: words.skip(1),
        redirections: Seq::empty(),
    }
}

proof fn lemma_command(words: Seq<Seq<char>>)
    requires
        words.len() > 0,
    ensures
        with_words(no_command(), words) == command_of(words),
{
    lemma_with_words(with_word(no_command(), words[0]), words.drop_first());
    let made = with_words(no_command(), words);
    assert(made.args =~= words.skip(1));
    assert(made =~= command_of(words));
}

/// A text of plain words is one command: its words, in order.
pub proof fn plain_words_are_one_command(a: Seq<char>)
    requires
        is_plain(a),
    ensures
        text::words(a).len() == 0 ==> script_commands(a).len() == 0,
        text::words(a).len() > 0 ==> script_commands(a) == seq![command_of(text::words(a))],
{
    let none = Seq::<char>::empty();
    assert(a + none =~= a);
    assert(a.skip(0) =~= a);
    lemma_plain(a, none, 0, no_command());
    if text::words(a).len() > 0 {
        lemma_command(text::words(a));
    }
}

/// A separator ends a command: what stands in front of it and what stands behind it read as they
/// do on their own, and nothing else is read.
pub proof fn a_separator_parts_two_commands(a: Seq<char>, b: Seq<char>)
    requires
        is_plain(a),
    ensures
        script_commands(a + seq![';'] + b) == script_commands(a) + script_commands(b),
        script_commands(a + seq!['|', '|'] + b) == script_commands(a) + script_commands(b),
        script_commands(a + seq!['&', '&'] + b) == script_commands(a) + script_commands(b),
        !text::begins(b, '|') ==> script_commands(a + seq!['|'] + b) == script_commands(a)
            + script_commands(b),
        !text::begins(b, '&') && !text::begins(b, '>') ==> script_commands(a + seq!['&'] + b)
            == script_commands(a) + script_commands(b),
{
    lemma_parted(a, seq![';'], b);
    lemma_parted(a, seq!['|', '|'], b);
    lemma_parted(a, seq!['&', '&'], b);
    if !text::begins(b, '|') {
        lemma_parted(a, seq!['|'], b);
    }
    if !text::begins(b, '&') && !text::begins(b, '>') {
        lemma_parted(a, seq!['&'], b);
    }
}

proof fn lemma_parted(a: Seq<char>, sep: Seq<char>, b: Seq<char>)
    requires
        is_plain(a),
        sep == seq![';'] || sep == seq!['|', '|'] || sep == seq!['&', '&'] || (sep == seq!['|']
            && !text::begins(b, '|')) || (sep == seq!['&'] && !text::begins(b, '&')
            && !text::begins(b, '>')),
    ensures
        script_commands(a + sep + b) == script_commands(a) + script_commands(b),
{
    let x = sep + b;
    let s = a + sep + b;
    assert(s =~= a + x);
    assert(a.skip(0) =~= a);
    assert(x[0] == sep[0]);
    lemma_plain(a, x, 0, no_command());
    let held = with_words(no_command(), text::words(a));
    let none = Seq::<char>::empty();
    assert(a + none =~= a);
    lemma_plain(a, none, 0, no_command());
    assert(script_commands(a) == flushed(held));
    let n = a.len() as int;
    assert(s[n] == sep[0]);
    if sep.len() == 2 {
        assert(s[n + 1] == sep[1]);
    } else if b.len() > 0 {
        assert(s[n + 1] == b[0]);
    }
    reading_moves_on(s, n);
    assert(token_at(s, n) == (Token::Stop, n + sep.len()));
    lemma_shift_commands(a + sep, b, 0, no_command());
    assert(commands(s, n, held) == flushed(held) + commands(s, n + sep.len(), no_command()));
}

/// A write redirection behind plain words belongs to their command: its operator and the path
/// behind it are kept, and the words stay what they were.
pub proof fn a_redirection_belongs_to_its_command(
    a: Seq<char>,
    digits: Seq<char>,
    op: Seq<char>,
    blanks: Seq<char>,
    target: Seq<char>,
)
    requires
        is_plain(a),
        a.len() == 0 || text::is_space(a.last()),
        forall|i: int| 0 <= i < digits.len() ==> text::is_digit(#[trigger] digits[i]),
        op == seq!['>'] || op == seq!['>', '>'] || op == seq!['>', '|'],
        text::all_blank(blanks) && !blanks.contains('\n'),
        is_plain(target) && target.len() > 0,
        forall|i: int| 0 <= i < target.len() ==> !text::is_space(#[trigger] target[i]),
    ensures
        script_commands(a + digits + op + blanks + target) == seq![
            SegmentView {
                redirections: seq![(digits + op, target)],
                ..(if text::words(a).len() > 0 {
                    command_of(text::words(a))
                } else {
                    no_command()
                })
            },
        ],
{
    let x = digits + op + blanks + target;
    let s = a + digits + op + blanks + target;
    assert(s =~= a + x);
    assert(a.skip(0) =~= a);
    lemma_plain(a, x, 0, no_command());
    let held = with_words(no_command(), text::words(a));
    if text::words(a).len() > 0 {
        lemma_command(text::words(a));
    }
    let n = a.len() as int;
    lemma_redirect_token(digits, op, blanks, target);
    lemma_shift_token(a, x, 0);
    reading_moves_on(s, n);
    let after = SegmentView { redirections: held.redirections.push((digits + op, target)), ..held };
    assert(commands(s, n, held) == commands(s, s.len() as int, after));
    assert(held.redirections.push((digits + op, target)) =~= seq![(digits + op, target)]);
}

/// Where the parts of a written redirection stand.
proof fn lemma_redirect_parts(
    digits: Seq<char>,
    op: Seq<char>,
    blanks: Seq<char>,
    target: Seq<char>,
)
    requires
        forall|i: int| 0 <= i < digits.len() ==> text::is_digit(#[trigger] digits[i]),
        op == seq!['>'] || op == seq!['>', '>'] || op == seq!['>', '|'],
        text::all_blank(blanks) && !blanks.contains('\n'),
        is_plain(target) && target.len() > 0,
        forall|i: int| 0 <= i < target.len() ==> !text::is_space(#[trigger] target[i]),
    ensures
        ({
            let x = digits + op + blanks + target;
            let arrow = digits.len() as int;
            let t = arrow + op.len() + blanks.len();
            &&& x[arrow] == '>'
            &&& past_digits(x, 0) == arrow
            &&& op.len() == 2 ==> x[arrow + 1] == op[1]
            &&& op.len() == 1 ==> x[arrow + 1] != '>' && x[arrow + 1] != '|'
            &&& x.subrange(0, arrow) == digits
            &&& past_blanks(x, arrow + op.len()) == t
            &&& is_plain_char(x[t])
            &&& x.len() == t + target.len()
        }),
{
    let x = digits + op + blanks + target;
    let arrow = digits.len() as int;
    let t = arrow + op.len() + blanks.len();
    assert(x[arrow] == '>');
    assert forall|k: int| 0 <= k < arrow implies text::is_digit(#[trigger] x[k]) by {
        assert(x[k] == digits[k]);
    }
    lemma_digits_run(x, 0, arrow);
    if op.len() == 2 {
        assert(x[arrow + 1] == op[1]);
    } else if blanks.len() > 0 {
        assert(x[arrow + 1] == blanks[0]);
        assert(text::is_space(blanks[0]));
    } else {
        assert(x[arrow + 1] == target[0]);
        assert(is_plain_char(target[0]));
    }
    assert(x.subrange(0, arrow) =~= digits);
    assert forall|k: int| arrow + op.len() <= k < t implies text::is_space(#[trigger] x[k]) && x[k]
        != '\n' by {
        assert(x[k] == blanks[k - arrow - op.len()]);
    }
    assert(x[t] == target[0]);
    assert(!text::is_space(target[0]));
    lemma_blank_run(x, arrow + op.len(), t);
    assert(is_plain_char(target[0]));
}

proof fn lemma_redirect_token(
    digits: Seq<char>,
    op: Seq<char>,
    blanks: Seq<char>,
    target: Seq<char>,
)
    requires
        forall|i: int| 0 <= i < digits.len() ==> text::is_digit(#[trigger] digits[i]),
        op == seq!['>'] || op == seq!['>', '>'] || op == seq!['>', '|'],
        text::all_blank(blanks) && !blanks.contains('\n'),
        is_plain(target) && target.len() > 0,
        forall|i: int| 0 <= i < target.len() ==> !text::is_space(#[trigger] target[i]),
    ensures
        ({
            let x = digits + op + blanks + target;
            token_at(x, 0) == (Token::Redirect(digits + op, target), x.len() as int)
        }),
{
    let x = digits + op + blanks + target;
    let arrow = digits.len() as int;
    let t = arrow + op.len() + blanks.len();
    lemma_redirect_parts(digits, op, blanks, target);
    assert(arrow_of(x, 0) == arrow);
    assert(operator_at(x, 0) =~= digits + op);
    assert(target_at(x, 0) == t);
    assert forall|k: int| t <= k < x.len() implies is_plain_char(#[trigger] x[k])
        && !text::is_space(x[k]) by {
        assert(x[k] == target[k - t]);
    }
    lemma_plain_word(x, t, x.len() as int);
    assert(x.subrange(t, x.len() as int) =~= target);
    assert(redirection_at(x, 0) == (digits + op, Some(target), x.len() as int));
    if digits.len() > 0 {
        assert(x[0] == digits[0]);
        assert(text::is_digit(digits[0]));
    } else {
        assert(x[0] == '>');
    }
}

proof fn lemma_digits_run(s: Seq<char>, i: int, e: int)
    requires
        0 <= i <= e < s.len(),
        forall|k: int| i <= k < e ==> text::is_digit(#[trigger] s[k]),
        !text::is_digit(s[e]),
    ensures
        past_digits(s, i) == e,
    decreases e - i,
{
    if i < e {
        assert(text::is_digit(s[i]));
        lemma_digits_run(s, i + 1, e);
    }
}

proof fn lemma_blank_run(s: Seq<char>, i: int, e: int)
    requires
        0 <= i <= e < s.len(),
        forall|k: int| i <= k < e ==> text::is_space(#[trigger] s[k]) && s[k] != '\n',
        !text::is_space(s[e]),
    ensures
        past_blanks(s, i) == e,
    decreases e - i,
{
    if i < e {
        assert(text::is_space(s[i]) && s[i] != '\n');
        lemma_blank_run(s, i + 1, e);
    }
}

/// What stands between quotes is one word, whatever it holds: a separator or an arrow in it parts
/// and redirects nothing.
pub proof fn a_quoted_text_is_one_word(a: Seq<char>, inside: Seq<char>)
    requires
        is_plain(a),
        text::words(a).len() > 0,
        text::is_space(a.last()),
        !inside.contains('\''),
    ensures
        script_commands(a + seq!['\''] + inside + seq!['\'']) == seq![
            command_of(text::words(a).push(inside)),
        ],
{
    let x = seq!['\''] + inside + seq!['\''];
    let s = a + seq!['\''] + inside + seq!['\''];
    assert(s =~= a + x);
    assert(a.skip(0) =~= a);
    lemma_plain(a, x, 0, no_command());
    lemma_command(text::words(a));
    let held = command_of(text::words(a));
    lemma_shift_token(a, x, 0);
    assert(x[0] == '\'');
    lemma_inside_quotes(x, 1, x.len() - 1);
    assert(x.subrange(1, x.len() - 1) =~= inside);
    assert(word_from(x, x.len() as int, None).word.len() == 0);
    assert(token_at(x, 0) == (Token::Word(inside), x.len() as int));
    let n = a.len() as int;
    reading_moves_on(s, n);
    let after = with_word(held, inside);
    assert(commands(s, n, held) == commands(s, s.len() as int, after));
    assert(text::words(a).push(inside).skip(1) =~= text::words(a).skip(1).push(inside));
    assert(after =~= command_of(text::words(a).push(inside)));
}

proof fn lemma_inside_quotes(s: Seq<char>, j: int, e: int)
    requires
        0 <= j <= e < s.len(),
        e + 1 == s.len(),
        s[e] == '\'',
        forall|k: int| j <= k < e ==> #[trigger] s[k] != '\'',
    ensures
        word_from(s, j, Some('\'')).word == s.subrange(j, e),
        word_from(s, j, Some('\'')).end == s.len(),
    decreases e - j,
{
    if j < e {
        lemma_inside_quotes(s, j + 1, e);
        assert(s.subrange(j, e) =~= seq![s[j]] + s.subrange(j + 1, e));
    } else {
        assert(word_from(s, e + 1, None).word.len() == 0);
        assert(s.subrange(j, e) =~= word_from(s, e + 1, None).word);
    }
}

/// The command with one more thing read into it.
spec fn with_token(current: SegmentView, token: Token) -> SegmentView {
    match token {
        Token::Redirect(operator, target) => SegmentView {
            redirections: current.redirections.push((operator, target)),
            ..current
        },
        Token::Word(word) => with_word(current, word),
        _ => current,
    }
}

/// What stands last in a script, behind plain words, is read into their command.
proof fn lemma_last_token(a: Seq<char>, x: Seq<char>)
    requires
        is_plain(a),
        a.len() == 0 || text::is_space(a.last()),
        x.len() > 0,
        token_at(x, 0).1 == x.len(),
        !(token_at(x, 0).0 is Stop),
    ensures
        script_commands(a + x) == flushed(
            with_token(with_words(no_command(), text::words(a)), token_at(x, 0).0),
        ),
{
    let s = a + x;
    assert(a.skip(0) =~= a);
    lemma_plain(a, x, 0, no_command());
    let held = with_words(no_command(), text::words(a));
    let n = a.len() as int;
    lemma_shift_token(a, x, 0);
    reading_moves_on(s, n);
    assert(commands(s, n, held) == commands(s, s.len() as int, with_token(held, token_at(x, 0).0)));
}

/// What is read from is not written to: a read redirection adds nothing to its command, neither a
/// word nor a redirection.
pub proof fn a_read_redirection_adds_nothing(
    a: Seq<char>,
    reads: Seq<char>,
    blanks: Seq<char>,
    source: Seq<char>,
)
    requires
        is_plain(a),
        a.len() == 0 || text::is_space(a.last()),
        reads == seq!['<'] || reads == seq!['<', '<'],
        text::all_blank(blanks) && !blanks.contains('\n'),
        is_plain(source) && source.len() > 0,
        forall|i: int| 0 <= i < source.len() ==> !text::is_space(#[trigger] source[i]),
    ensures
        script_commands(a + (reads + blanks + source)) == script_commands(a),
{
    let x = reads + blanks + source;
    let r = reads.len() as int;
    let t = r + blanks.len();
    assert(x[0] == '<');
    if r == 2 {
        assert(x[1] == '<');
    }
    assert(x[t] == source[0]);
    assert(is_plain_char(source[0]) && !text::is_space(source[0]));
    if blanks.len() > 0 {
        assert(x[r] == blanks[0]);
        assert(text::is_space(blanks[0]));
    } else {
        assert(x[r] == source[0]);
    }
    assert(!at(x, r, '<'));
    reveal_with_fuel(past_reads, 3);
    assert(past_reads(x, 1) == r);
    assert forall|k: int| r <= k < t implies text::is_space(#[trigger] x[k]) && x[k] != '\n' by {
        assert(x[k] == blanks[k - r]);
    }
    lemma_blank_run(x, r, t);
    assert forall|k: int| t <= k < x.len() implies is_plain_char(#[trigger] x[k])
        && !text::is_space(x[k]) by {
        assert(x[k] == source[k - t]);
    }
    lemma_plain_word(x, t, x.len() as int);
    lemma_last_token(a, x);
    let none = Seq::<char>::empty();
    assert(a + none =~= a);
    assert(a.skip(0) =~= a);
    lemma_plain(a, none, 0, no_command());
}

/// A redirection into a descriptor writes to no path.
pub proof fn a_descriptor_is_no_path(a: Seq<char>, digits: Seq<char>, descriptor: Seq<char>)
    requires
        is_plain(a),
        a.len() == 0 || text::is_space(a.last()),
        forall|i: int| 0 <= i < digits.len() ==> text::is_digit(#[trigger] digits[i]),
        forall|i: int|
            0 <= i < descriptor.len() ==> text::is_digit(#[trigger] descriptor[i]) || descriptor[i]
                == '-',
    ensures
        script_commands(a + (digits + seq!['>', '&'] + descriptor)) == script_commands(a),
{
    let x = digits + seq!['>', '&'] + descriptor;
    let arrow = digits.len() as int;
    assert(x[arrow] == '>' && x[arrow + 1] == '&');
    assert forall|k: int| 0 <= k < arrow implies text::is_digit(#[trigger] x[k]) by {
        assert(x[k] == digits[k]);
    }
    lemma_digits_run(x, 0, arrow);
    assert(arrow_of(x, 0) == arrow);
    assert(target_at(x, 0) == arrow + 1);
    assert forall|k: int| arrow + 2 <= k < x.len() implies text::is_digit(#[trigger] x[k]) || x[k]
        == '-' by {
        assert(x[k] == descriptor[k - arrow - 2]);
    }
    lemma_descriptor_run(x, arrow + 2);
    assert(redirection_at(x, 0).1 is None);
    if digits.len() > 0 {
        assert(x[0] == digits[0]);
        assert(text::is_digit(digits[0]));
    }
    assert(token_at(x, 0) == (Token::Nothing, x.len() as int));
    lemma_last_token(a, x);
    let none = Seq::<char>::empty();
    assert(a + none =~= a);
    assert(a.skip(0) =~= a);
    lemma_plain(a, none, 0, no_command());
}

proof fn lemma_descriptor_run(s: Seq<char>, i: int)
    requires
        0 <= i <= s.len(),
        forall|k: int| i <= k < s.len() ==> text::is_digit(#[trigger] s[k]) || s[k] == '-',
    ensures
        past_descriptor(s, i) == s.len(),
    decreases s.len() - i,
{
    if i < s.len() {
        lemma_descriptor_run(s, i + 1);
    }
}

/// A redirection of both outputs is a write redirection.
pub proof fn both_outputs_are_redirected(
    a: Seq<char>,
    op: Seq<char>,
    blanks: Seq<char>,
    target: Seq<char>,
)
    requires
        is_plain(a),
        a.len() == 0 || text::is_space(a.last()),
        op == seq!['&', '>'] || op == seq!['&', '>', '>'],
        text::all_blank(blanks) && !blanks.contains('\n'),
        is_plain(target) && target.len() > 0,
        forall|i: int| 0 <= i < target.len() ==> !text::is_space(#[trigger] target[i]),
    ensures
        script_commands(a + (op + blanks + target)) == seq![
            SegmentView {
                redirections: seq![(op, target)],
                ..(if text::words(a).len() > 0 {
                    command_of(text::words(a))
                } else {
                    no_command()
                })
            },
        ],
{
    let x = op + blanks + target;
    let n = op.len() as int;
    let t = n + blanks.len();
    assert(x[0] == '&' && x[1] == '>');
    if n == 3 {
        assert(x[2] == '>');
    } else if blanks.len() > 0 {
        assert(x[2] == blanks[0]);
        assert(text::is_space(blanks[0]));
    } else {
        assert(x[2] == target[0]);
        assert(is_plain_char(target[0]));
    }
    assert(past_digits(x, 0) == 0);
    assert(arrow_of(x, 0) == 1);
    assert(operator_at(x, 0) =~= op);
    assert(x[t] == target[0]);
    assert(is_plain_char(target[0]) && !text::is_space(target[0]));
    assert forall|k: int| n <= k < t implies text::is_space(#[trigger] x[k]) && x[k] != '\n' by {
        assert(x[k] == blanks[k - n]);
    }
    lemma_blank_run(x, n, t);
    assert(target_at(x, 0) == t);
    assert forall|k: int| t <= k < x.len() implies is_plain_char(#[trigger] x[k])
        && !text::is_space(x[k]) by {
        assert(x[k] == target[k - t]);
    }
    lemma_plain_word(x, t, x.len() as int);
    assert(x.subrange(t, x.len() as int) =~= target);
    assert(token_at(x, 0) == (Token::Redirect(op, target), x.len() as int));
    lemma_last_token(a, x);
    let held = with_words(no_command(), text::words(a));
    if text::words(a).len() > 0 {
        lemma_command(text::words(a));
    }
    assert(held.redirections.push((op, target)) =~= seq![(op, target)]);
}

/// A character behind a backslash is part of its word, whatever it is.
pub proof fn an_escaped_character_is_part_of_its_word(a: Seq<char>, c: char, rest: Seq<char>)
    requires
        is_plain(a),
        text::words(a).len() > 0,
        text::is_space(a.last()),
        is_plain(rest),
        forall|i: int| 0 <= i < rest.len() ==> !text::is_space(#[trigger] rest[i]),
    ensures
        script_commands(a + (seq!['\\', c] + rest)) == seq![
            command_of(text::words(a).push(seq![c] + rest)),
        ],
{
    let x = seq!['\\', c] + rest;
    assert(x[0] == '\\' && x[1] == c);
    assert forall|k: int| 2 <= k < x.len() implies is_plain_char(#[trigger] x[k])
        && !text::is_space(x[k]) by {
        assert(x[k] == rest[k - 2]);
    }
    lemma_plain_word(x, 2, x.len() as int);
    assert(x.subrange(2, x.len() as int) =~= rest);
    let word = seq![c] + rest;
    assert(token_at(x, 0) == (Token::Word(word), x.len() as int));
    lemma_last_token(a, x);
    lemma_command(text::words(a));
    assert(text::words(a).push(word).skip(1) =~= text::words(a).skip(1).push(word));
    assert(with_word(command_of(text::words(a)), word) =~= command_of(text::words(a).push(word)));
}

/// What stands between double quotes is one word too, as long as nothing in it is escaped.
pub proof fn a_doubly_quoted_text_is_one_word(a: Seq<char>, inside: Seq<char>)
    requires
        is_plain(a),
        text::words(a).len() > 0,
        text::is_space(a.last()),
        !inside.contains('"'),
        !inside.contains('\\'),
    ensures
        script_commands(a + (seq!['"'] + inside + seq!['"'])) == seq![
            command_of(text::words(a).push(inside)),
        ],
{
    let x = seq!['"'] + inside + seq!['"'];
    assert(x[0] == '"');
    assert forall|k: int| 1 <= k < x.len() - 1 implies #[trigger] x[k] != '"' && x[k] != '\\' by {
        assert(x[k] == inside[k - 1]);
        assert(inside.contains(x[k]));
    }
    lemma_inside_double_quotes(x, 1, x.len() - 1);
    assert(x.subrange(1, x.len() - 1) =~= inside);
    assert(token_at(x, 0) == (Token::Word(inside), x.len() as int));
    lemma_last_token(a, x);
    lemma_command(text::words(a));
    assert(text::words(a).push(inside).skip(1) =~= text::words(a).skip(1).push(inside));
    assert(with_word(command_of(text::words(a)), inside) =~= command_of(
        text::words(a).push(inside),
    ));
}

proof fn lemma_inside_double_quotes(s: Seq<char>, j: int, e: int)
    requires
        0 <= j <= e < s.len(),
        e + 1 == s.len(),
        s[e] == '"',
        forall|k: int| j <= k < e ==> #[trigger] s[k] != '"' && s[k] != '\\',
    ensures
        word_from(s, j, Some('"')).word == s.subrange(j, e),
        word_from(s, j, Some('"')).end == s.len(),
    decreases e - j,
{
    if j < e {
        lemma_inside_double_quotes(s, j + 1, e);
        assert(s[j] != '"' && s[j] != '\\');
        assert(s.subrange(j, e) =~= seq![s[j]] + s.subrange(j + 1, e));
    } else {
        assert(word_from(s, e + 1, None).word.len() == 0);
        assert(s.subrange(j, e) =~= word_from(s, e + 1, None).word);
    }
}

/// Quotes part no word: what stands right before them and right behind them belongs to the same
/// word as what they hold.
pub proof fn quotes_part_no_word(
    a: Seq<char>,
    front: Seq<char>,
    quote: char,
    inside: Seq<char>,
    back: Seq<char>,
)
    requires
        is_plain(a),
        text::words(a).len() > 0,
        text::is_space(a.last()),
        is_plain(front) && is_plain(back),
        forall|i: int| 0 <= i < front.len() ==> !text::is_space(#[trigger] front[i]),
        forall|i: int| 0 <= i < back.len() ==> !text::is_space(#[trigger] back[i]),
        quote == '\'' || quote == '"',
        !inside.contains(quote),
        quote == '"' ==> !inside.contains('\\'),
    ensures
        script_commands(a + (front + seq![quote] + inside + seq![quote] + back)) == seq![
            command_of(text::words(a).push(front + inside + back)),
        ],
{
    let x = front + seq![quote] + inside + seq![quote] + back;
    let word = front + inside + back;
    let n = front.len() as int;
    let e = n + 1 + inside.len();
    assert(x[n] == quote && x[e] == quote);
    assert forall|k: int| 0 <= k < n implies is_plain_char(#[trigger] x[k]) && !text::is_space(
        x[k],
    ) by {
        assert(x[k] == front[k]);
    }
    assert forall|k: int| n < k < e implies #[trigger] x[k] != quote && (quote == '"' ==> x[k]
        != '\\') by {
        assert(x[k] == inside[k - n - 1]);
        assert(inside.contains(x[k]));
    }
    assert forall|k: int| e < k < x.len() implies is_plain_char(#[trigger] x[k])
        && !text::is_space(x[k]) by {
        assert(x[k] == back[k - e - 1]);
    }
    lemma_plain_run(x, 0, n);
    lemma_quoted_run(x, quote, n + 1, e);
    lemma_plain_word(x, e + 1, x.len() as int);
    lemma_plain_digits(x, 0, n);
    assert(x.subrange(0, n) =~= front);
    assert(x.subrange(n + 1, e) =~= inside);
    assert(x.subrange(e + 1, x.len() as int) =~= back);
    assert(word_from(x, 0, None).word =~= word);
    assert(word_from(x, n, None).seen);
    assert(token_at(x, 0) == (Token::Word(word), x.len() as int));
    lemma_last_token(a, x);
    lemma_command(text::words(a));
    assert(text::words(a).push(word).skip(1) =~= text::words(a).skip(1).push(word));
    assert(with_word(command_of(text::words(a)), word) =~= command_of(text::words(a).push(word)));
}

/// Between double quotes a backslash takes the character behind it as it stands.
pub proof fn an_escape_counts_inside_double_quotes(
    a: Seq<char>,
    front: Seq<char>,
    c: char,
    back: Seq<char>,
)
    requires
        is_plain(a),
        text::words(a).len() > 0,
        text::is_space(a.last()),
        !front.contains('"') && !front.contains('\\'),
        !back.contains('"') && !back.contains('\\'),
    ensures
        script_commands(a + (seq!['"'] + front + seq!['\\', c] + back + seq!['"'])) == seq![
            command_of(text::words(a).push(front + seq![c] + back)),
        ],
{
    let x = seq!['"'] + front + seq!['\\', c] + back + seq!['"'];
    let word = front + seq![c] + back;
    let n = front.len() as int + 1;
    let e = x.len() - 1;
    assert(x[0] == '"' && x[n] == '\\' && x[n + 1] == c && x[e] == '"');
    assert forall|k: int| 1 <= k < n implies #[trigger] x[k] != '"' && x[k] != '\\' by {
        assert(x[k] == front[k - 1]);
        assert(front.contains(x[k]));
    }
    assert forall|k: int| n + 2 <= k < e implies #[trigger] x[k] != '"' && x[k] != '\\' by {
        assert(x[k] == back[k - n - 2]);
        assert(back.contains(x[k]));
    }
    lemma_quoted_run(x, '"', 1, n);
    lemma_quoted_run(x, '"', n + 2, e);
    assert(x.subrange(1, n) =~= front);
    assert(x.subrange(n + 2, e) =~= back);
    assert(word_from(x, e + 1, None).word =~= Seq::<char>::empty());
    assert(word_from(x, 0, None).word =~= word);
    assert(token_at(x, 0) == (Token::Word(word), x.len() as int));
    lemma_last_token(a, x);
    lemma_command(text::words(a));
    assert(text::words(a).push(word).skip(1) =~= text::words(a).skip(1).push(word));
    assert(with_word(command_of(text::words(a)), word) =~= command_of(text::words(a).push(word)));
}

proof fn lemma_plain_run(s: Seq<char>, j: int, e: int)
    requires
        0 <= j <= e <= s.len(),
        forall|k: int| j <= k < e ==> is_plain_char(#[trigger] s[k]) && !text::is_space(s[k]),
    ensures
        word_from(s, j, None).word == s.subrange(j, e) + word_from(s, e, None).word,
        word_from(s, j, None).end == word_from(s, e, None).end,
        word_from(s, j, None).seen == (j < e || word_from(s, e, None).seen),
    decreases e - j,
{
    if j < e {
        lemma_plain_run(s, j + 1, e);
        assert(is_plain_char(s[j]) && !text::is_space(s[j]));
        assert(s.subrange(j, e) =~= seq![s[j]] + s.subrange(j + 1, e));
        assert(word_from(s, j, None).word =~= s.subrange(j, e) + word_from(s, e, None).word);
    } else {
        assert(s.subrange(j, e) + word_from(s, e, None).word =~= word_from(s, e, None).word);
    }
}

/// What a quote holds up to where it closes, or to where `e` says.
proof fn lemma_quoted_run(s: Seq<char>, quote: char, j: int, e: int)
    requires
        0 <= j <= e < s.len(),
        forall|k: int| j <= k < e ==> #[trigger] s[k] != quote && (quote == '"' ==> s[k] != '\\'),
    ensures
        word_from(s, j, Some(quote)).word == s.subrange(j, e) + word_from(s, e, Some(quote)).word,
        word_from(s, j, Some(quote)).end == word_from(s, e, Some(quote)).end,
        s[e] == quote ==> word_from(s, e, Some(quote)) == word_from(s, e + 1, None),
    decreases e - j,
{
    if j < e {
        lemma_quoted_run(s, quote, j + 1, e);
        assert(s[j] != quote);
        assert(s.subrange(j, e) =~= seq![s[j]] + s.subrange(j + 1, e));
        assert(word_from(s, j, Some(quote)).word =~= s.subrange(j, e) + word_from(
            s,
            e,
            Some(quote),
        ).word);
    } else {
        assert(s.subrange(j, e) + word_from(s, e, Some(quote)).word =~= word_from(
            s,
            e,
            Some(quote),
        ).word);
    }
}

} // verus!
