//! The transcript parser: play-script lines in, chat elements out.

use vstd::prelude::*;

use crate::directory::{resolve, Config, User, UserModel, DirectoryModel};
use crate::macros::{expand_chars, expand_macros};
use crate::text::{
    alphanumeric, chars_of, is_white, run_end, run_start, white_space, is_alphanumeric, lines_of, scan_lines, slice_chars, string_of,
    strip_cr, trim, trim_chars,
};

verus! {

/// One element of a parsed transcript.
#[derive(Clone, Debug)]
pub enum ChatlogElement {
    /// A free-form time marker, its macros expanded.
    Timestamp { message: String },
    /// A message: its speaker and its lines, each ended by a line feed, macros expanded.
    Post { user: User, message: String },
}

/// What a chat element is.
pub enum ElementModel {
    Timestamp(Seq<char>),
    Post(UserModel, Seq<char>),
}

impl View for ChatlogElement {
    type V = ElementModel;

    open spec fn view(&self) -> ElementModel {
        match self {
            ChatlogElement::Timestamp { message } => ElementModel::Timestamp(message@),
            ChatlogElement::Post { user, message } => ElementModel::Post(user@, message@),
        }
    }
}

pub open spec fn elements_model(v: Seq<ChatlogElement>) -> Seq<ElementModel> {
    v.map_values(|e: ChatlogElement| e@)
}

/// A message being gathered: its speaker token, its speaker, and its text so far.
pub type Pending = Option<(Seq<char>, UserModel, Seq<char>)>;

/// The parser between two lines: the elements emitted, and the message being gathered.
pub type ParseState = (Seq<ElementModel>, Pending);

pub open spec fn pending_model(p: Option<(String, User, Vec<char>)>) -> Pending {
    match p {
        Some((t, u, b)) => Some((t@, u@, b@)),
        None => None,
    }
}

/// The elements with the message being gathered, if any, emitted after them.
pub open spec fn flush(d: DirectoryModel, st: ParseState) -> Seq<ElementModel> {
    match st.1 {
        Some((_, u, b)) => st.0.push(ElementModel::Post(u, expand_macros(d, b))),
        None => st.0,
    }
}

/// Where the first `": "` in `l` at or after `i` starts, or -1.
pub open spec fn find_sep(l: Seq<char>, i: int) -> int
    decreases l.len() - i,
{
    if i < 0 || i + 1 >= l.len() {
        -1
    } else if l[i] == ':' && l[i + 1] == ' ' {
        i
    } else {
        find_sep(l, i + 1)
    }
}

/// A speaker token: one or more alphanumeric characters.
pub open spec fn speaker_token(t: Seq<char>) -> bool {
    t.len() > 0 && forall|j: int| 0 <= j < t.len() ==> alphanumeric(#[trigger] t[j])
}

/// Whether `l` opens a new message: it holds `": "`, and what stands before the first
/// one is a speaker token.
pub open spec fn is_speaker_line(l: Seq<char>) -> bool {
    let p = find_sep(l, 0);
    p >= 0 && speaker_token(l.take(p))
}

pub open spec fn is_blank(l: Seq<char>) -> bool {
    trim(l).len() == 0
}

pub open spec fn is_timestamp_line(l: Seq<char>) -> bool {
    !is_blank(l) && l[0] == '@'
}

/// What one line does to the parser.
pub open spec fn step(d: DirectoryModel, st: ParseState, l: Seq<char>) -> ParseState {
    if is_blank(l) {
        st
    } else if l[0] == '@' {
        (flush(d, st).push(ElementModel::Timestamp(expand_macros(d, trim(l.skip(1))))), None)
    } else if is_speaker_line(l) {
        let p = find_sep(l, 0);
        let t = l.take(p);
        let text = l.skip(p + 2).push('\n');
        match st.1 {
            Some((k, u, b)) => if k == t {
                (st.0, Some((k, u, b + text)))
            } else {
                (flush(d, st), Some((t, resolve(d, t), text)))
            },
            None => (st.0, Some((t, resolve(d, t), text))),
        }
    } else {
        match st.1 {
            Some((k, u, b)) => (st.0, Some((k, u, b + l.push('\n')))),
            None => st,
        }
    }
}

/// The parser after the lines `ls`, from nothing emitted and nothing gathered.
pub open spec fn run(d: DirectoryModel, ls: Seq<Seq<char>>) -> ParseState
    decreases ls.len(),
{
    if ls.len() == 0 {
        (Seq::empty(), None)
    } else {
        step(d, run(d, ls.drop_last()), ls.last())
    }
}

/// The elements a sequence of lines parses to.
pub open spec fn parse_lines(d: DirectoryModel, ls: Seq<Seq<char>>) -> Seq<ElementModel> {
    flush(d, run(d, ls))
}

/// The elements a transcript parses to.
pub open spec fn parse_transcript(d: DirectoryModel, text: Seq<char>) -> Seq<ElementModel> {
    parse_lines(d, lines_of(text))
}

/// The line `TOKEN: text`.
pub open spec fn speaker_line(t: Seq<char>, x: Seq<char>) -> Seq<char> {
    t + ": "@ + x
}

/// Emits the message being gathered, if any.
fn flush_pending(
    config: &Config,
    elements: &mut Vec<ChatlogElement>,
    pending: Option<(String, User, Vec<char>)>,
)
    ensures
        elements_model(final(elements)@) == flush(
            config@,
            (elements_model(old(elements)@), pending_model(pending)),
        ),
{
    match pending {
        Some((_, user, buf)) => {
            let message = expand_chars(config, &buf);
            let e = ChatlogElement::Post { user, message };
            let ghost before = elements@;
            elements.push(e);
            assert(elements_model(elements@) =~= elements_model(before).push(e@));
        },
        None => {},
    }
}

pub(crate) fn find_separator(l: &Vec<char>) -> (r: Option<usize>)
    ensures
        r matches Some(p) ==> find_sep(l@, 0) == p && p + 1 < l.len(),
        r is None ==> find_sep(l@, 0) == -1,
{
    let mut i: usize = 0;
    while l.len() > 0 && i < l.len() - 1
        invariant
            i <= l.len(),
            find_sep(l@, 0) == find_sep(l@, i as int),
        decreases l.len() - i,
    {
        if l[i] == ':' && l[i + 1] == ' ' {
            return Some(i);
        }
        i = i + 1;
    }
    None
}

fn all_alphanumeric(l: &Vec<char>, n: usize) -> (r: bool)
    requires
        n <= l.len(),
    ensures
        r == (forall|j: int| 0 <= j < n ==> alphanumeric(#[trigger] l@[j])),
{
    let mut i: usize = 0;
    while i < n
        invariant
            i <= n <= l.len(),
            forall|j: int| 0 <= j < i ==> alphanumeric(#[trigger] l@[j]),
        decreases n - i,
    {
        if !is_alphanumeric(l[i]) {
            return false;
        }
        i = i + 1;
    }
    true
}

/// `buf` followed by `line` and a line feed.
fn append_line(buf: &mut Vec<char>, line: &Vec<char>)
    ensures
        final(buf)@ == old(buf)@ + line@.push('\n'),
{
    let mut i: usize = 0;
    while i < line.len()
        invariant
            i <= line.len(),
            buf@ == old(buf)@ + line@.take(i as int),
        decreases line.len() - i,
    {
        buf.push(line[i]);
        i = i + 1;
        assert(buf@ =~= old(buf)@ + line@.take(i as int));
    }
    buf.push('\n');
    assert(buf@ =~= old(buf)@ + line@.push('\n'));
}

/// Feeds one line to the parser.
fn step_line(
    config: &Config,
    elements: &mut Vec<ChatlogElement>,
    pending: Option<(String, User, Vec<char>)>,
    line: &Vec<char>,
) -> (r: Option<(String, User, Vec<char>)>)
    ensures
        (elements_model(final(elements)@), pending_model(r)) == step(
            config@,
            (elements_model(old(elements)@), pending_model(pending)),
            line@,
        ),
{
    let ghost st = (elements_model(elements@), pending_model(pending));
    if trim_chars(line).len() == 0 {
        return pending;
    }
    if line[0] == '@' {
        flush_pending(config, elements, pending);
        let rest = slice_chars(line, 1, line.len());
        assert(rest@ =~= line@.skip(1));
        let message = expand_chars(config, &trim_chars(&rest));
        let e = ChatlogElement::Timestamp { message };
        let ghost before = elements@;
        elements.push(e);
        assert(elements_model(elements@) =~= elements_model(before).push(e@));
        return None;
    }
    match find_separator(line) {
        Some(p) => {
            if p > 0 && all_alphanumeric(line, p) {
                let token = string_of(&slice_chars(line, 0, p));
                assert(token@ =~= line@.take(p as int));
                let mut text = slice_chars(line, p + 2, line.len());
                text.push('\n');
                assert(text@ =~= line@.skip(p + 2).push('\n'));
                match pending {
                    Some((k, user, buf)) => {
                        if k == token {
                            let mut buf = buf;
                            let ghost b0 = buf@;
                            buf.append(&mut text);
                            assert(buf@ =~= b0 + line@.skip(p + 2).push('\n'));
                            return Some((k, user, buf));
                        }
                        flush_pending(config, elements, Some((k, user, buf)));
                    },
                    None => {},
                }
                let user = config.resolve(token.as_str());
                return Some((token, user, text));
            }
            assert(forall|j: int| 0 <= j < p ==> line@.take(p as int)[j] == line@[j]);
            assert(!speaker_token(line@.take(p as int)));
        },
        None => {},
    }
    match pending {
        Some((k, user, buf)) => {
            let mut buf = buf;
            append_line(&mut buf, line);
            Some((k, user, buf))
        },
        None => None,
    }
}

/// Parses a play-script transcript into chat elements, in input order.
///
/// Each line is, in this order of precedence: blank (ignored); a timestamp, starting
/// with `@` (emits the message being gathered, then a timestamp of the rest of the line,
/// trimmed); a speaker line `TOKEN: text` with an alphanumeric token before the first
/// `": "` (adds `text` to the message being gathered when that message is by the same
/// token, else emits it and starts one by that speaker); or a
/// continuation, added to the message being gathered, or dropped when there is none.
/// Messages have their `@KEY.field` macros expanded when they are emitted.
pub fn parse_posts(config: &Config, input: String) -> (r: Vec<ChatlogElement>)
    ensures
        elements_model(r@) == parse_transcript(config@, input@),
{
    let ghost d = config@;
    let s = chars_of(input.as_str());
    let mut elements: Vec<ChatlogElement> = Vec::new();
    let mut pending: Option<(String, User, Vec<char>)> = None;
    let mut cur: Vec<char> = Vec::new();
    let mut i: usize = 0;
    assert(elements_model(elements@) =~= Seq::<ElementModel>::empty());
    assert(s@.take(0) =~= Seq::<char>::empty());
    while i < s.len()
        invariant
            i <= s.len(),
            d == config@,
            s@ == input@,
            (elements_model(elements@), pending_model(pending)) == run(
                d,
                scan_lines(s@.take(i as int)).0,
            ),
            cur@ == scan_lines(s@.take(i as int)).1,
        decreases s.len() - i,
    {
        let ghost done = scan_lines(s@.take(i as int)).0;
        assert(s@.take(i + 1).drop_last() =~= s@.take(i as int));
        if s[i] == '\n' {
            let mut line = cur;
            if line.len() > 0 && line[line.len() - 1] == '\r' {
                line.pop();
            }
            assert(line@ =~= strip_cr(cur@));
            pending = step_line(config, &mut elements, pending, &line);
            cur = Vec::new();
            assert(done.push(line@).drop_last() =~= done);
        } else {
            cur.push(s[i]);
        }
        i = i + 1;
    }
    assert(s@.take(i as int) =~= s@);
    if cur.len() > 0 {
        let ghost done = scan_lines(s@).0;
        pending = step_line(config, &mut elements, pending, &cur);
        assert(done.push(cur@).drop_last() =~= done);
    }
    flush_pending(config, &mut elements, pending);
    elements
}

proof fn lemma_run_end_le(l: Seq<char>, j: int, i: int, p: spec_fn(char) -> bool)
    requires
        0 <= j <= i < l.len(),
        !p(l[i]),
    ensures
        j <= run_end(l, j, p) <= i,
    decreases i - j,
{
    if j < i && p(l[j]) {
        lemma_run_end_le(l, j + 1, i, p);
    }
}

proof fn lemma_run_start_gt(l: Seq<char>, j: int, i: int, p: spec_fn(char) -> bool)
    requires
        0 <= i < j <= l.len(),
        !p(l[i]),
    ensures
        i < run_start(l, j, p) <= j,
    decreases j,
{
    if j - 1 > i && p(l[j - 1]) {
        lemma_run_start_gt(l, j - 1, i, p);
    }
}

/// A line with a character other than white space is not blank.
proof fn lemma_not_blank(l: Seq<char>, i: int)
    requires
        0 <= i < l.len(),
        !white_space(l[i]),
    ensures
        !is_blank(l),
{
    assert(!is_white()(l[i]));
    lemma_run_end_le(l, 0, i, is_white());
    lemma_run_start_gt(l, l.len() as int, i, is_white());
    let a = run_end(l, 0, is_white());
    let b = run_start(l, l.len() as int, is_white());
    assert(trim(l) == l.subrange(a, b));
}

proof fn lemma_find_sep(l: Seq<char>, n: int, i: int)
    requires
        0 <= i <= n,
        n + 1 < l.len(),
        l[n] == ':',
        l[n + 1] == ' ',
        forall|j: int| i <= j < n ==> l[j] != ':',
    ensures
        find_sep(l, i) == n,
    decreases n - i,
{
    if i < n {
        lemma_find_sep(l, n, i + 1);
    }
}

/// How a speaker line is read: its token before the separator, its text after it.
proof fn lemma_speaker_line(t: Seq<char>, x: Seq<char>)
    requires
        speaker_token(t),
    ensures
        !is_blank(speaker_line(t, x)),
        speaker_line(t, x)[0] != '@',
        is_speaker_line(speaker_line(t, x)),
        find_sep(speaker_line(t, x), 0) == t.len(),
        speaker_line(t, x).take(t.len() as int) == t,
        speaker_line(t, x).skip(t.len() as int + 2) == x,
{
    reveal_strlit(": ");
    let l = speaker_line(t, x);
    assert(l[0] == t[0]);
    assert(alphanumeric(t[0]));
    lemma_not_blank(l, 0);
    assert forall|j: int| 0 <= j < t.len() implies l[j] != ':' by {
        assert(l[j] == t[j]);
        assert(alphanumeric(t[j]));
    }
    lemma_find_sep(l, t.len() as int, 0);
    assert(l.take(t.len() as int) =~= t);
    assert(l.skip(t.len() as int + 2) =~= x);
}

/// Running the parser from equal states over the same further lines gives equal states.
proof fn lemma_run_congruent(d: DirectoryModel, p: Seq<Seq<char>>, q: Seq<Seq<char>>, ls: Seq<Seq<char>>)
    requires
        run(d, p) == run(d, q),
    ensures
        run(d, p + ls) == run(d, q + ls),
    decreases ls.len(),
{
    if ls.len() == 0 {
        assert(p + ls =~= p);
        assert(q + ls =~= q);
    } else {
        lemma_run_congruent(d, p, q, ls.drop_last());
        assert((p + ls).drop_last() =~= p + ls.drop_last());
        assert((q + ls).drop_last() =~= q + ls.drop_last());
    }
}

/// Two speaker lines in a row by different speakers give two posts, the first
/// speaker's before the second's, each holding its line's text and a line feed, macros
/// expanded.
pub proof fn lemma_speaker_switch(d: DirectoryModel, a: Seq<char>, x: Seq<char>, b: Seq<char>, y: Seq<char>)
    requires
        speaker_token(a),
        speaker_token(b),
        a != b,
    ensures
        parse_lines(d, seq![speaker_line(a, x), speaker_line(b, y)]) == seq![
            ElementModel::Post(resolve(d, a), expand_macros(d, x.push('\n'))),
            ElementModel::Post(resolve(d, b), expand_macros(d, y.push('\n'))),
        ],
{
    let l1 = speaker_line(a, x);
    let l2 = speaker_line(b, y);
    lemma_speaker_line(a, x);
    lemma_speaker_line(b, y);
    let s1 = lemma_run_one(d, l1);
    assert(s1 == (Seq::<ElementModel>::empty(), Some((a, resolve(d, a), x.push('\n')))));
    let s2 = lemma_run_two(d, l1, l2);
    assert(s2 == (flush(d, s1), Some((b, resolve(d, b), y.push('\n')))));
    assert(parse_lines(d, seq![l1, l2]) =~= seq![
        ElementModel::Post(resolve(d, a), expand_macros(d, x.push('\n'))),
        ElementModel::Post(resolve(d, b), expand_macros(d, y.push('\n'))),
    ]);
}

/// Consecutive speaker lines by one speaker give one post holding both texts, each
/// ended by a line feed, macros expanded over the whole.
pub proof fn lemma_same_speaker_grouped(d: DirectoryModel, a: Seq<char>, x: Seq<char>, y: Seq<char>)
    requires
        speaker_token(a),
    ensures
        parse_lines(d, seq![speaker_line(a, x), speaker_line(a, y)]) == seq![
            ElementModel::Post(resolve(d, a), expand_macros(d, x.push('\n') + y.push('\n'))),
        ],
{
    let l1 = speaker_line(a, x);
    let l2 = speaker_line(a, y);
    lemma_speaker_line(a, x);
    lemma_speaker_line(a, y);
    let s1 = lemma_run_one(d, l1);
    assert(s1 == (Seq::<ElementModel>::empty(), Some((a, resolve(d, a), x.push('\n')))));
    let s2 = lemma_run_two(d, l1, l2);
    assert(s2 == (Seq::<ElementModel>::empty(), Some((a, resolve(d, a), x.push('\n') + y.push('\n')))));
    assert(parse_lines(d, seq![l1, l2]) =~= seq![
        ElementModel::Post(resolve(d, a), expand_macros(d, x.push('\n') + y.push('\n'))),
    ]);
}

/// The parser after one line.
proof fn lemma_run_one(d: DirectoryModel, l: Seq<char>) -> (st: ParseState)
    ensures
        st == run(d, seq![l]),
        st == step(d, (Seq::empty(), None), l),
{
    assert(seq![l].drop_last() =~= Seq::<Seq<char>>::empty());
    assert(run(d, Seq::<Seq<char>>::empty()) == (Seq::<ElementModel>::empty(), None::<(Seq<char>, UserModel, Seq<char>)>));
    run(d, seq![l])
}

/// The parser after two lines.
proof fn lemma_run_two(d: DirectoryModel, l1: Seq<char>, l2: Seq<char>) -> (st: ParseState)
    ensures
        st == run(d, seq![l1, l2]),
        st == step(d, run(d, seq![l1]), l2),
{
    assert(seq![l1, l2].drop_last() =~= seq![l1]);
    run(d, seq![l1, l2])
}

/// A line that is neither blank, nor a timestamp, nor a speaker line continues the
/// message before it: a speaker line and such a line give one post holding both texts,
/// each ended by a line feed.
pub proof fn lemma_continuation_joins(d: DirectoryModel, a: Seq<char>, x: Seq<char>, y: Seq<char>)
    requires
        speaker_token(a),
        !is_blank(y),
        y[0] != '@',
        !is_speaker_line(y),
    ensures
        parse_lines(d, seq![speaker_line(a, x), y]) == seq![
            ElementModel::Post(resolve(d, a), expand_macros(d, x.push('\n') + y.push('\n'))),
        ],
{
    let l1 = speaker_line(a, x);
    lemma_speaker_line(a, x);
    let s1 = lemma_run_one(d, l1);
    assert(s1 == (Seq::<ElementModel>::empty(), Some((a, resolve(d, a), x.push('\n')))));
    let s2 = lemma_run_two(d, l1, y);
    assert(s2 == (Seq::<ElementModel>::empty(), Some((a, resolve(d, a), x.push('\n') + y.push('\n')))));
    assert(parse_lines(d, seq![l1, y]) =~= seq![
        ElementModel::Post(resolve(d, a), expand_macros(d, x.push('\n') + y.push('\n'))),
    ]);
}

/// A timestamp line ends the message being gathered: a speaker line followed by `@w`
/// gives the post, then a timestamp of `w` trimmed, macros expanded.
pub proof fn lemma_timestamp_flushes(d: DirectoryModel, a: Seq<char>, x: Seq<char>, w: Seq<char>)
    requires
        speaker_token(a),
    ensures
        parse_lines(d, seq![speaker_line(a, x), seq!['@'] + w]) == seq![
            ElementModel::Post(resolve(d, a), expand_macros(d, x.push('\n'))),
            ElementModel::Timestamp(expand_macros(d, trim(w))),
        ],
{
    let l1 = speaker_line(a, x);
    lemma_speaker_line(a, x);
    let t = seq!['@'] + w;
    lemma_not_blank(t, 0);
    assert(t.skip(1) =~= w);
    let s1 = lemma_run_one(d, l1);
    assert(s1 == (Seq::<ElementModel>::empty(), Some((a, resolve(d, a), x.push('\n')))));
    let s2 = lemma_run_two(d, l1, t);
    assert(s2 == (flush(d, s1).push(ElementModel::Timestamp(expand_macros(d, trim(w)))), None::<(Seq<char>, UserModel, Seq<char>)>));
    assert(parse_lines(d, seq![l1, t]) =~= seq![
        ElementModel::Post(resolve(d, a), expand_macros(d, x.push('\n'))),
        ElementModel::Timestamp(expand_macros(d, trim(w))),
    ]);
}

/// A blank line changes nothing: wherever it is inserted, the lines parse to the same
/// elements, and no message holds it.
pub proof fn lemma_blank_line_inert(d: DirectoryModel, before: Seq<Seq<char>>, b: Seq<char>, after: Seq<Seq<char>>)
    requires
        is_blank(b),
    ensures
        parse_lines(d, before + seq![b] + after) == parse_lines(d, before + after),
{
    assert((before + seq![b]).drop_last() =~= before);
    lemma_run_congruent(d, before + seq![b], before, after);
}

/// A continuation line before any speaker line is dropped: it adds no element.
pub proof fn lemma_leading_continuation_dropped(d: DirectoryModel, l: Seq<char>, rest: Seq<Seq<char>>)
    requires
        !is_blank(l),
        l[0] != '@',
        !is_speaker_line(l),
    ensures
        parse_lines(d, seq![l] + rest) == parse_lines(d, rest),
{
    assert(seq![l].drop_last() =~= Seq::<Seq<char>>::empty());
    lemma_run_congruent(d, seq![l], Seq::empty(), rest);
    assert(Seq::<Seq<char>>::empty() + rest =~= rest);
}

/// Characters without a line feed extend the line being scanned.
proof fn lemma_scan_no_feed(s1: Seq<char>, s2: Seq<char>)
    requires
        forall|i: int| 0 <= i < s2.len() ==> s2[i] != '\n',
    ensures
        scan_lines(s1 + s2) == (scan_lines(s1).0, scan_lines(s1).1 + s2),
    decreases s2.len(),
{
    if s2.len() == 0 {
        assert(s1 + s2 =~= s1);
        assert(scan_lines(s1).1 + s2 =~= scan_lines(s1).1);
    } else {
        lemma_scan_no_feed(s1, s2.drop_last());
        assert((s1 + s2).drop_last() =~= s1 + s2.drop_last());
        assert(scan_lines(s1).1 + s2 =~= (scan_lines(s1).1 + s2.drop_last()).push(s2.last()));
    }
}

/// Two lines joined by a line feed are read back as those two lines.
pub proof fn lemma_two_lines(l1: Seq<char>, l2: Seq<char>)
    requires
        forall|i: int| 0 <= i < l1.len() ==> l1[i] != '\n' && l1[i] != '\r',
        forall|i: int| 0 <= i < l2.len() ==> l2[i] != '\n',
        l2.len() > 0,
    ensures
        lines_of(l1 + seq!['\n'] + l2) == seq![l1, l2],
{
    let e = Seq::<char>::empty();
    lemma_scan_no_feed(e, l1);
    assert(e + l1 =~= l1);
    assert(scan_lines(e) == (Seq::<Seq<char>>::empty(), e));
    let s1 = l1 + seq!['\n'];
    assert(s1.drop_last() =~= l1);
    assert(strip_cr(l1) == l1);
    assert(scan_lines(s1) == (seq![l1], e));
    lemma_scan_no_feed(s1, l2);
    assert(e + l2 =~= l2);
}

/// How a transcript of two speaker lines is split into lines.
proof fn lemma_two_speaker_lines(a: Seq<char>, x: Seq<char>, b: Seq<char>, y: Seq<char>)
    requires
        speaker_token(a),
        speaker_token(b),
        forall|i: int| 0 <= i < x.len() ==> x[i] != '\n' && x[i] != '\r',
        forall|i: int| 0 <= i < y.len() ==> y[i] != '\n',
    ensures
        lines_of(speaker_line(a, x) + seq!['\n'] + speaker_line(b, y)) == seq![
            speaker_line(a, x),
            speaker_line(b, y),
        ],
{
    reveal_strlit(": ");
    let l1 = speaker_line(a, x);
    let l2 = speaker_line(b, y);
    assert forall|i: int| 0 <= i < l1.len() implies l1[i] != '\n' && l1[i] != '\r' by {
        if i < a.len() {
            assert(l1[i] == a[i] && alphanumeric(a[i]));
        } else if i >= a.len() + 2 {
            assert(l1[i] == x[i - a.len() - 2]);
        }
    }
    assert forall|i: int| 0 <= i < l2.len() implies l2[i] != '\n' by {
        if i < b.len() {
            assert(l2[i] == b[i] && alphanumeric(b[i]));
        } else if i >= b.len() + 2 {
            assert(l2[i] == y[i - b.len() - 2]);
        }
    }
    lemma_two_lines(l1, l2);
}

/// The transcript `a: x` then `b: y`, on two lines, by different speakers, parses to
/// two posts, the first speaker's before the second's.
pub proof fn lemma_transcript_speaker_switch(d: DirectoryModel, a: Seq<char>, x: Seq<char>, b: Seq<char>, y: Seq<char>)
    requires
        speaker_token(a),
        speaker_token(b),
        a != b,
        forall|i: int| 0 <= i < x.len() ==> x[i] != '\n' && x[i] != '\r',
        forall|i: int| 0 <= i < y.len() ==> y[i] != '\n',
    ensures
        parse_transcript(d, speaker_line(a, x) + seq!['\n'] + speaker_line(b, y)) == seq![
            ElementModel::Post(resolve(d, a), expand_macros(d, x.push('\n'))),
            ElementModel::Post(resolve(d, b), expand_macros(d, y.push('\n'))),
        ],
{
    lemma_two_speaker_lines(a, x, b, y);
    lemma_speaker_switch(d, a, x, b, y);
}

/// The transcript `a: x` then `a: y`, on two lines, parses to one post holding both
/// texts, each ended by a line feed.
pub proof fn lemma_transcript_same_speaker(d: DirectoryModel, a: Seq<char>, x: Seq<char>, y: Seq<char>)
    requires
        speaker_token(a),
        forall|i: int| 0 <= i < x.len() ==> x[i] != '\n' && x[i] != '\r',
        forall|i: int| 0 <= i < y.len() ==> y[i] != '\n',
    ensures
        parse_transcript(d, speaker_line(a, x) + seq!['\n'] + speaker_line(a, y)) == seq![
            ElementModel::Post(resolve(d, a), expand_macros(d, x.push('\n') + y.push('\n'))),
        ],
{
    lemma_two_speaker_lines(a, x, a, y);
    lemma_same_speaker_grouped(d, a, x, y);
}

/// The transcript `a: x` then `@w`, on two lines, parses to the post, then a timestamp
/// of `w` trimmed.
pub proof fn lemma_transcript_timestamp(d: DirectoryModel, a: Seq<char>, x: Seq<char>, w: Seq<char>)
    requires
        speaker_token(a),
        forall|i: int| 0 <= i < x.len() ==> x[i] != '\n' && x[i] != '\r',
        forall|i: int| 0 <= i < w.len() ==> w[i] != '\n',
    ensures
        parse_transcript(d, speaker_line(a, x) + seq!['\n'] + (seq!['@'] + w)) == seq![
            ElementModel::Post(resolve(d, a), expand_macros(d, x.push('\n'))),
            ElementModel::Timestamp(expand_macros(d, trim(w))),
        ],
{
    reveal_strlit(": ");
    let l1 = speaker_line(a, x);
    let l2 = seq!['@'] + w;
    assert forall|i: int| 0 <= i < l1.len() implies l1[i] != '\n' && l1[i] != '\r' by {
        if i < a.len() {
            assert(l1[i] == a[i] && alphanumeric(a[i]));
        } else if i >= a.len() + 2 {
            assert(l1[i] == x[i - a.len() - 2]);
        }
    }
    assert forall|i: int| 0 <= i < l2.len() implies l2[i] != '\n' by {
        if i > 0 {
            assert(l2[i] == w[i - 1]);
        }
    }
    lemma_two_lines(l1, l2);
    lemma_timestamp_flushes(d, a, x, w);
}

/// A blank line between two lines by one speaker does not split their post, and does
/// not stand in its text.
pub proof fn lemma_blank_between_same_speaker(d: DirectoryModel, a: Seq<char>, x: Seq<char>, b: Seq<char>, y: Seq<char>)
    requires
        speaker_token(a),
        is_blank(b),
    ensures
        parse_lines(d, seq![speaker_line(a, x), b, speaker_line(a, y)]) == seq![
            ElementModel::Post(resolve(d, a), expand_macros(d, x.push('\n') + y.push('\n'))),
        ],
{
    let before = seq![speaker_line(a, x)];
    let after = seq![speaker_line(a, y)];
    lemma_blank_line_inert(d, before, b, after);
    assert(before + seq![b] + after =~= seq![speaker_line(a, x), b, speaker_line(a, y)]);
    assert(before + after =~= seq![speaker_line(a, x), speaker_line(a, y)]);
    lemma_same_speaker_grouped(d, a, x, y);
}

} // verus!
