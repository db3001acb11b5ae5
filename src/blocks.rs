//! The earlier grouping of a transcript: blocks of messages, one per run of lines by one
//! speaker under one timestamp. Templates still receive it beside the chat elements.

use vstd::prelude::*;

use crate::directory::{resolve, Config, DirectoryModel, User, UserModel};
use crate::parser::{find_sep, find_separator};
use crate::text::{
    alphanumeric, chars_of, is_alphanumeric, lines_of, scan_lines, slice_chars, string_of,
    strings_model, strip_cr, trim, trim_chars,
};
use vstd::string::StringExecFns;

verus! {

/// What a block is: its speaker, the timestamp in force, and its messages.
pub struct BlockModel {
    pub user: UserModel,
    pub timestamp: Option<Seq<char>>,
    pub messages: Seq<Seq<char>>,
}

pub open spec fn opt_model(t: Option<String>) -> Option<Seq<char>> {
    match t {
        Some(s) => Some(s@),
        None => None,
    }
}

/// A speaker's run of messages under one timestamp.
#[derive(Clone, Debug)]
pub struct OldPostBlock {
    user: User,
    timestamp: Option<String>,
    messages: Vec<String>,
}

impl View for OldPostBlock {
    type V = BlockModel;

    closed spec fn view(&self) -> BlockModel {
        BlockModel {
            user: self.user@,
            timestamp: opt_model(self.timestamp),
            messages: strings_model(self.messages@),
        }
    }
}

/// The block parser between two lines: the blocks emitted, the timestamp in force, the
/// last speaker token seen, and the messages gathered since the last block.
pub type BlockState = (Seq<BlockModel>, Option<Seq<char>>, Seq<char>, Seq<Seq<char>>);

/// The blocks, with the gathered messages emitted as one more where there are any.
pub open spec fn close_block(d: DirectoryModel, st: BlockState) -> Seq<BlockModel> {
    if st.3.len() == 0 {
        st.0
    } else {
        st.0.push(BlockModel { user: resolve(d, st.2), timestamp: st.1, messages: st.3 })
    }
}

/// Every character of `t` is alphanumeric (which holds of the empty token too).
pub open spec fn all_alphanumeric(t: Seq<char>) -> bool {
    forall|j: int| 0 <= j < t.len() ==> alphanumeric(#[trigger] t[j])
}

/// What one line does to the block parser.
pub open spec fn block_step(d: DirectoryModel, st: BlockState, l: Seq<char>) -> BlockState {
    let (blocks, ts, name, msgs) = st;
    if l.len() > 0 && l[0] == '@' {
        let t = trim(l.skip(1));
        (close_block(d, st), if t.len() > 0 { Some(t) } else { ts }, name, Seq::empty())
    } else if find_sep(l, 0) >= 0 {
        let p = find_sep(l, 0);
        let n = l.take(p);
        if all_alphanumeric(n) {
            if n != name && name.len() > 0 {
                (close_block(d, st), ts, n, seq![l.skip(p + 2)])
            } else {
                (blocks, ts, n, msgs.push(l.skip(p + 2)))
            }
        } else {
            (blocks, ts, name, msgs.push(l))
        }
    } else if msgs.len() > 0 {
        (blocks, ts, name, msgs.update(msgs.len() - 1, msgs.last() + seq!['\n'] + l))
    } else {
        (blocks, ts, name, msgs.push(l))
    }
}

pub open spec fn block_run(d: DirectoryModel, ls: Seq<Seq<char>>) -> BlockState
    decreases ls.len(),
{
    if ls.len() == 0 {
        (Seq::empty(), None, Seq::empty(), Seq::empty())
    } else {
        block_step(d, block_run(d, ls.drop_last()), ls.last())
    }
}

/// The blocks a transcript parses to.
pub open spec fn parse_blocks(d: DirectoryModel, text: Seq<char>) -> Seq<BlockModel> {
    close_block(d, block_run(d, lines_of(text)))
}

pub open spec fn blocks_model(v: Seq<OldPostBlock>) -> Seq<BlockModel> {
    v.map_values(|b: OldPostBlock| b@)
}

fn copy_timestamp(t: &Option<String>) -> (r: Option<String>)
    ensures
        opt_model(r) == opt_model(*t),
{
    match t {
        Some(s) => Some(s.clone()),
        None => None,
    }
}

impl OldPostBlock {
    fn new(user: User, timestamp: Option<String>, messages: Vec<String>) -> (r: OldPostBlock)
        ensures
            r@ == (BlockModel {
                user: user@,
                timestamp: opt_model(timestamp),
                messages: strings_model(messages@),
            }),
    {
        OldPostBlock { user, timestamp, messages }
    }

    /// The speaker of the block.
    pub fn user(&self) -> (r: &User)
        ensures
            r@ == self@.user,
    {
        &self.user
    }

    /// The timestamp in force when the block began, if any.
    pub fn timestamp(&self) -> (r: Option<String>)
        ensures
            opt_model(r) == self@.timestamp,
    {
        copy_timestamp(&self.timestamp)
    }

    /// The messages of the block.
    pub fn messages(&self) -> (r: &Vec<String>)
        ensures
            strings_model(r@) == self@.messages,
    {
        &self.messages
    }

    /// Emits the gathered messages as a block, if there are any; returns what is left
    /// gathered, which is nothing.
    fn close(
        config: &Config,
        blocks: &mut Vec<OldPostBlock>,
        name: &String,
        timestamp: &Option<String>,
        messages: Vec<String>,
    ) -> (r: Vec<String>)
        ensures
            blocks_model(final(blocks)@) == close_block(
                config@,
                (blocks_model(old(blocks)@), opt_model(*timestamp), name@, strings_model(messages@)),
            ),
            r@.len() == 0,
    {
        if messages.len() == 0 {
            return messages;
        }
        let user = config.resolve(name.as_str());
        let b = OldPostBlock::new(user, copy_timestamp(timestamp), messages);
        let ghost before = blocks@;
        blocks.push(b);
        assert(blocks_model(blocks@) =~= blocks_model(before).push(b@));
        Vec::new()
    }

    /// Parses a play-script transcript into blocks: a block ends where a timestamp line
    /// comes or another speaker speaks; each speaker line adds a message, and a line
    /// without `": "` continues the last message (or starts one where there is none).
    pub fn parse_posts(config: &Config, input: String) -> (r: Vec<OldPostBlock>)
        ensures
            blocks_model(r@) == parse_blocks(config@, input@),
    {
        let ghost d = config@;
        let lines = chars_of(input.as_str());
        let mut blocks: Vec<OldPostBlock> = Vec::new();
        let mut timestamp: Option<String> = None;
        let mut name = String::new();
        let mut messages: Vec<String> = Vec::new();
        let mut cur: Vec<char> = Vec::new();
        let mut i: usize = 0;
        assert(blocks_model(blocks@) =~= Seq::<BlockModel>::empty());
        assert(strings_model(messages@) =~= Seq::<Seq<char>>::empty());
        assert(lines@.take(0) =~= Seq::<char>::empty());
        while i < lines.len()
            invariant
                i <= lines.len(),
                d == config@,
                lines@ == input@,
                (blocks_model(blocks@), opt_model(timestamp), name@, strings_model(messages@))
                    == block_run(d, scan_lines(lines@.take(i as int)).0),
                cur@ == scan_lines(lines@.take(i as int)).1,
            decreases lines.len() - i,
        {
            let ghost done = scan_lines(lines@.take(i as int)).0;
            assert(lines@.take(i + 1).drop_last() =~= lines@.take(i as int));
            if lines[i] == '\n' {
                let mut line = cur;
                if line.len() > 0 && line[line.len() - 1] == '\r' {
                    line.pop();
                }
                assert(line@ =~= strip_cr(cur@));
                messages = Self::step(config, &mut blocks, &mut timestamp, &mut name, messages, &line);
                cur = Vec::new();
                assert(done.push(line@).drop_last() =~= done);
            } else {
                cur.push(lines[i]);
            }
            i = i + 1;
        }
        assert(lines@.take(i as int) =~= lines@);
        if cur.len() > 0 {
            let ghost done = scan_lines(lines@).0;
            messages = Self::step(config, &mut blocks, &mut timestamp, &mut name, messages, &cur);
            assert(done.push(cur@).drop_last() =~= done);
        }
        Self::close(config, &mut blocks, &name, &timestamp, messages);
        blocks
    }

    /// Feeds one line to the block parser; returns the messages gathered after it.
    fn step(
        config: &Config,
        blocks: &mut Vec<OldPostBlock>,
        timestamp: &mut Option<String>,
        name: &mut String,
        messages: Vec<String>,
        line: &Vec<char>,
    ) -> (r: Vec<String>)
        ensures
            (blocks_model(final(blocks)@), opt_model(*final(timestamp)), final(name)@, strings_model(r@))
                == block_step(
                config@,
                (blocks_model(old(blocks)@), opt_model(*old(timestamp)), old(name)@, strings_model(messages@)),
                line@,
            ),
    {
        let ghost msgs = strings_model(messages@);
        if line.len() > 0 && line[0] == '@' {
            let rest = slice_chars(line, 1, line.len());
            assert(rest@ =~= line@.skip(1));
            let t = trim_chars(&rest);
            let left = Self::close(config, blocks, name, timestamp, messages);
            assert(strings_model(left@) =~= Seq::<Seq<char>>::empty());
            if t.len() > 0 {
                *timestamp = Some(string_of(&t));
            }
            return left;
        }
        let mut messages = messages;
        if let Some(p) = find_separator(line) {
            let mut alnum = true;
            let mut j: usize = 0;
            while j < p
                invariant
                    j <= p < line.len(),
                    alnum == (forall|k: int| 0 <= k < j ==> alphanumeric(#[trigger] line@[k])),
                decreases p - j,
            {
                if !is_alphanumeric(line[j]) {
                    alnum = false;
                }
                j = j + 1;
            }
            let n = string_of(&slice_chars(line, 0, p));
            assert(n@ =~= line@.take(p as int));
            assert(alnum == all_alphanumeric(n@)) by {
                assert(forall|k: int| 0 <= k < p ==> n@[k] == line@[k]);
            }
            let text = string_of(&slice_chars(line, p + 2, line.len()));
            assert(text@ =~= line@.skip(p + 2));
            if alnum {
                if n != *name && !name.as_str().is_empty() {
                    messages = Self::close(config, blocks, name, timestamp, messages);
                }
                *name = n;
                let ghost before = messages@;
                messages.push(text);
                assert(strings_model(messages@) =~= strings_model(before).push(text@));
                return messages;
            }
            let whole = string_of(line);
            let ghost before = messages@;
            messages.push(whole);
            assert(strings_model(messages@) =~= strings_model(before).push(line@));
            return messages;
        }
        let whole = string_of(line);
        let ghost before = messages@;
        if messages.len() > 0 {
            match messages.pop() {
                Some(last) => {
                    proof {
                        reveal_strlit("\n");
                    }
                    assert(last@ == msgs.last());
                    let mut last = last;
                    last.append("\n");
                    last.append(whole.as_str());
                    assert(last@ =~= msgs.last() + seq!['\n'] + line@);
                    let ghost popped = messages@;
                    assert(strings_model(popped) =~= msgs.drop_last());
                    messages.push(last);
                    assert(strings_model(messages@) =~= msgs.update(
                        msgs.len() - 1,
                        msgs.last() + seq!['\n'] + line@,
                    ));
                },
                None => {},
            }
        } else {
            messages.push(whole);
            assert(strings_model(messages@) =~= strings_model(before).push(line@));
        }
        messages
    }
}

} // verus!
