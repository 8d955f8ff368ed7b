//! What is Slack's own about a message: how its text is escaped and fenced, and what its
//! answers mean.
use crate::config::AppConfigSlack;
use crate::notifications::message::{Block, NotificationMessage};
use crate::text::{join, joined, texts, to_chars, trim, trim_end, trimmed, trimmed_end};
use vstd::prelude::*;
use vstd::string::*;

verus! {

/// The Slack channel of a configuration.
#[derive(Debug)]
pub struct SlackChannel {
    slack: AppConfigSlack,
}

impl SlackChannel {
    /// The configuration it was made from.
    pub closed spec fn slack(&self) -> AppConfigSlack {
        self.slack
    }

    /// The channel of a workspace.
    pub fn new(slack: AppConfigSlack) -> (channel: Self)
        ensures
            channel.slack() == slack,
    {
        SlackChannel { slack }
    }

    /// The configuration it was made from.
    pub fn config(&self) -> (slack: &AppConfigSlack)
        ensures
            *slack == self.slack(),
    {
        &self.slack
    }

    /// The most bytes of one stream that a post quotes.
    pub fn max_output_bytes(&self) -> (n: usize)
        ensures
            n == self.slack().max_output_bytes,
    {
        self.slack.max_output_bytes
    }
}

/// Whether a character of a text is a backtick.
pub open spec fn is_tick(text: Seq<char>, i: int) -> bool {
    0 <= i < text.len() && text[i] == '`'
}

/// Whether a fence, three backticks in a row, begins at a place of a text.
pub open spec fn fence_at(text: Seq<char>, i: int) -> bool {
    is_tick(text, i) && is_tick(text, i + 1) && is_tick(text, i + 2)
}

/// Whether a text holds a fence anywhere.
pub open spec fn has_fence(text: Seq<char>) -> bool {
    exists|i: int| #[trigger] fence_at(text, i)
}

/// Whether a backtick stands behind another in a run of three or more.
pub open spec fn parts(text: Seq<char>, i: int) -> bool {
    is_tick(text, i - 1) && is_tick(text, i) && (is_tick(text, i - 2) || is_tick(text, i + 1))
}

/// The first characters of a text, with the backticks of every run of three or more parted by
/// spaces.
pub open spec fn parted_until(text: Seq<char>, n: nat) -> Seq<char>
    decreases n,
{
    if n == 0 {
        Seq::empty()
    } else {
        let before = parted_until(text, (n - 1) as nat);
        if parts(text, n - 1) {
            before.push(' ').push(text[n - 1])
        } else {
            before.push(text[n - 1])
        }
    }
}

/// A text with the backticks of every run of three or more parted by spaces.
pub open spec fn ticks_parted(text: Seq<char>) -> Seq<char> {
    parted_until(text, text.len())
}

/// A text with each fence in it, read from the left, replaced by three backticks with spaces
/// between them.
pub open spec fn fences_replaced(text: Seq<char>) -> Seq<char>
    decreases text.len(),
{
    if text.len() == 0 {
        Seq::empty()
    } else if fence_at(text, 0) {
        seq!['`', ' ', '`', ' ', '`'] + fences_replaced(text.skip(3))
    } else {
        seq![text[0]] + fences_replaced(text.skip(1))
    }
}

/// A text with its fences broken up: each is replaced, and where the backticks around the
/// replaced ones make a fence again, as they do in a run of five, all runs are parted instead.
pub open spec fn fences_broken(text: Seq<char>) -> Seq<char> {
    if has_fence(fences_replaced(text)) {
        ticks_parted(text)
    } else {
        fences_replaced(text)
    }
}

/// A text without its spaces.
pub open spec fn without_spaces(text: Seq<char>) -> Seq<char> {
    text.filter(|c: char| c != ' ')
}

/// Breaks the fences in a text up, so that none of them closes the block it is quoted in.
/// Nothing but spaces is added, and a text without a fence stays as it is.
pub fn fence_safe(body: &str) -> (s: String)
    ensures
        s@ == fences_broken(body@),
        !has_fence(s@),
        without_spaces(s@) == without_spaces(body@),
        !has_fence(body@) ==> s@ == body@,
{
    let chars = to_chars(body);
    proof {
        broken_text_has_no_fence(body@);
        breaking_adds_only_spaces(body@);
        if !has_fence(body@) {
            a_text_without_a_fence_is_kept(body@);
        }
    }
    let replaced = replace_fences(&chars);
    if holds_fence(replaced.as_str()) {
        part_ticks(&chars)
    } else {
        replaced
    }
}

fn replace_fences(chars: &Vec<char>) -> (s: String)
    ensures
        s@ == fences_replaced(chars@),
{
    let mut s = String::new();
    let mut i: usize = 0;
    assert(chars@.skip(0) =~= chars@);
    assert(s@ + fences_replaced(chars@) =~= fences_replaced(chars@));
    while i < chars.len()
        invariant
            i <= chars@.len(),
            s@ + fences_replaced(chars@.skip(i as int)) == fences_replaced(chars@),
        decreases chars.len() - i,
    {
        let ghost rest = chars@.skip(i as int);
        let ghost before = s@;
        if chars.len() - i >= 3 && chars[i] == '`' && chars[i + 1] == '`' && chars[i + 2] == '`' {
            s.push('`');
            s.push(' ');
            s.push('`');
            s.push(' ');
            s.push('`');
            i = i + 3;
            proof {
                assert(fence_at(rest, 0));
                assert(s@ =~= before + seq!['`', ' ', '`', ' ', '`']);
                assert(rest.skip(3) =~= chars@.skip(i as int));
                assert(s@ + fences_replaced(rest.skip(3)) =~= before + fences_replaced(rest));
            }
        } else {
            s.push(chars[i]);
            i = i + 1;
            proof {
                assert(!fence_at(rest, 0));
                assert(s@ =~= before + seq![rest[0]]);
                assert(rest.skip(1) =~= chars@.skip(i as int));
                assert(s@ + fences_replaced(rest.skip(1)) =~= before + fences_replaced(rest));
            }
        }
    }
    assert(s@ + fences_replaced(chars@.skip(i as int)) =~= s@);
    s
}

fn holds_fence(text: &str) -> (b: bool)
    ensures
        b == has_fence(text@),
{
    let chars = to_chars(text);
    let mut i: usize = 0;
    while i < chars.len()
        invariant
            chars@ == text@,
            i <= chars@.len(),
            forall|j: int| j < i ==> !#[trigger] fence_at(text@, j),
        decreases chars.len() - i,
    {
        if chars.len() - i >= 3 && chars[i] == '`' && chars[i + 1] == '`' && chars[i + 2] == '`' {
            assert(fence_at(text@, i as int));
            return true;
        }
        i = i + 1;
    }
    false
}

fn part_ticks(chars: &Vec<char>) -> (s: String)
    ensures
        s@ == ticks_parted(chars@),
{
    let mut s = String::new();
    let mut i: usize = 0;
    assert(s@ =~= parted_until(chars@, 0));
    while i < chars.len()
        invariant
            i <= chars@.len(),
            s@ == parted_until(chars@, i as nat),
        decreases chars.len() - i,
    {
        let parted: bool = chars[i] == '`' && i >= 1 && chars[i - 1] == '`' && ((i >= 2 && chars[i
            - 2] == '`') || (chars.len() - i >= 2 && chars[i + 1] == '`'));
        if parted {
            s.push(' ');
        }
        s.push(chars[i]);
        i = i + 1;
    }
    s
}

/// The end of a text that is broken until some place is the character before that place, and
/// no fence.
proof fn lemma_parted_until(text: Seq<char>, n: nat)
    requires
        n <= text.len(),
    ensures
        !has_fence(parted_until(text, n)),
        n > 0 ==> parted_until(text, n).len() > 0 && parted_until(text, n).last() == text[n - 1],
        n == 0 ==> parted_until(text, n).len() == 0,
    decreases n,
{
    let all = parted_until(text, n);
    if n > 0 {
        let before = parted_until(text, (n - 1) as nat);
        lemma_parted_until(text, (n - 1) as nat);
        if n > 1 {
            lemma_parted_until(text, (n - 2) as nat);
        }
        assert forall|i: int| #[trigger] fence_at(all, i) implies false by {
            if i + 2 < before.len() {
                assert(fence_at(before, i));
            } else if parts(text, n - 1) {
                assert(all[before.len() as int] == ' ');
                assert(i + 2 == before.len() || i + 1 == before.len());
            } else {
                assert(i + 2 == before.len());
                assert(before.last() == '`' && before.last() == all[i + 1]);
                assert(is_tick(text, n - 1) && is_tick(text, n - 2));
                let earlier = parted_until(text, (n - 2) as nat);
                assert(!is_tick(text, n - 3));
                assert(!parts(text, n - 2));
                assert(before =~= earlier.push(text[n - 2]));
                assert(all[i] == earlier.last());
            }
        }
    }
}

/// Text quoted in a code block cannot close it: a text with its fences broken up holds none.
pub proof fn broken_text_has_no_fence(text: Seq<char>)
    ensures
        !has_fence(fences_broken(text)),
{
    lemma_parted_until(text, text.len());
}

proof fn lemma_only_spaces(text: Seq<char>, n: nat)
    requires
        n <= text.len(),
    ensures
        without_spaces(parted_until(text, n)) == without_spaces(text.take(n as int)),
    decreases n,
{
    reveal(Seq::filter);
    let all = parted_until(text, n);
    if n == 0 {
        assert(text.take(0) =~= all);
    } else {
        lemma_only_spaces(text, (n - 1) as nat);
        let before = parted_until(text, (n - 1) as nat);
        let taken = text.take(n as int);
        assert(taken.drop_last() =~= text.take(n - 1));
        if parts(text, n - 1) {
            assert(all.drop_last() =~= before.push(' '));
            assert(before.push(' ').drop_last() =~= before);
            assert(without_spaces(before.push(' ')) == without_spaces(before));
            assert(without_spaces(all) == without_spaces(before).push(text[n - 1]));
        } else {
            assert(all.drop_last() =~= before);
        }
    }
}

proof fn lemma_replacing_adds_only_spaces(text: Seq<char>)
    ensures
        without_spaces(fences_replaced(text)) == without_spaces(text),
    decreases text.len(),
{
    let pred = |c: char| c != ' ';
    if text.len() == 0 {
        assert(fences_replaced(text) =~= text);
    } else if fence_at(text, 0) {
        let broken = seq!['`', ' ', '`', ' ', '`'];
        let fence = text.take(3);
        lemma_replacing_adds_only_spaces(text.skip(3));
        Seq::filter_distributes_over_add(broken, fences_replaced(text.skip(3)), pred);
        Seq::filter_distributes_over_add(fence, text.skip(3), pred);
        assert(fence + text.skip(3) =~= text);
        lemma_only_spaces(fence, 3);
        assert(fence.take(3) =~= fence);
        assert(parted_until(fence, 3) =~= broken) by {
            reveal_with_fuel(parted_until, 4);
        }
    } else {
        let first = seq![text[0]];
        lemma_replacing_adds_only_spaces(text.skip(1));
        Seq::filter_distributes_over_add(first, fences_replaced(text.skip(1)), pred);
        Seq::filter_distributes_over_add(first, text.skip(1), pred);
        assert(first + text.skip(1) =~= text);
    }
}

/// Breaking fences up adds spaces and changes nothing else.
pub proof fn breaking_adds_only_spaces(text: Seq<char>)
    ensures
        without_spaces(fences_broken(text)) == without_spaces(text),
{
    lemma_only_spaces(text, text.len());
    assert(text.take(text.len() as int) =~= text);
    lemma_replacing_adds_only_spaces(text);
}

/// A text without a fence is quoted as it is.
pub proof fn a_text_without_a_fence_is_kept(text: Seq<char>)
    requires
        !has_fence(text),
    ensures
        fences_broken(text) == text,
{
    lemma_nothing_is_replaced(text);
}

proof fn lemma_nothing_is_replaced(text: Seq<char>)
    requires
        !has_fence(text),
    ensures
        fences_replaced(text) == text,
    decreases text.len(),
{
    if text.len() > 0 {
        assert(!fence_at(text, 0));
        let rest = text.skip(1);
        assert forall|i: int| !#[trigger] fence_at(rest, i) by {
            assert(!fence_at(text, i + 1));
        }
        lemma_nothing_is_replaced(rest);
        assert(seq![text[0]] + rest =~= text);
    } else {
        assert(fences_replaced(text) =~= text);
    }
}

/// A title, and a text in a code block below it.
pub open spec fn code_block(title: Seq<char>, quoted: Seq<char>) -> Seq<char> {
    "*"@ + title + "*\n```\n"@ + quoted + "\n```"@
}

/// Whether a text is one with a title and a code block in which nothing closes the block but
/// its end: every fence below the title is the one that opens the block or the one that
/// closes it.
pub open spec fn is_closed_only_at_its_end(text: Seq<char>, title: Seq<char>) -> bool {
    &&& fence_at(text, title.len() as int + 3)
    &&& fence_at(text, text.len() - 3)
    &&& title.len() + 3 < text.len() - 3
    &&& forall|i: int| #[trigger]
        fence_at(text, i) ==> i == title.len() + 3 || i == text.len() - 3 || fence_at(title, i - 1)
}

/// A quoted text without a fence leaves its block closed only at its end.
pub proof fn a_block_is_closed_only_at_its_end(title: Seq<char>, quoted: Seq<char>)
    requires
        !has_fence(quoted),
    ensures
        is_closed_only_at_its_end(code_block(title, quoted), title),
{
    reveal_strlit("*");
    reveal_strlit("*\n```\n");
    reveal_strlit("\n```");
    let text = code_block(title, quoted);
    let open = title.len() as int + 3;
    let from = title.len() as int + 7;
    let close = from + quoted.len() + 1;
    assert(text.len() == close + 3);
    assert(text[0] == '*' && text[open - 2] == '*' && text[open - 1] == '\n');
    assert(text[open] == '`' && text[open + 1] == '`' && text[open + 2] == '`');
    assert(text[open + 3] == '\n' && text[close - 1] == '\n');
    assert(text[close] == '`' && text[close + 1] == '`' && text[close + 2] == '`');
    assert forall|i: int| 0 <= i < title.len() implies #[trigger] title[i] == text[i + 1] by {}
    assert forall|i: int| 0 <= i < quoted.len() implies #[trigger] quoted[i] == text[i + from] by {}
    assert forall|i: int| #[trigger] fence_at(text, i) implies i == open || i == close || fence_at(
        title,
        i - 1,
    ) by {
        if i < open {
            assert(i >= 1);
            assert(i + 2 < open - 2);
            assert(title[i - 1] == '`' && title[i] == '`' && title[i + 1] == '`');
        } else if i > open && i < close {
            assert(i >= from);
            assert(i + 2 < close - 1);
            assert(quoted[i - from] == '`' && quoted[i - from + 1] == '`' && quoted[i - from + 2]
                == '`');
            assert(fence_at(quoted, i - from));
        }
    }
}

/// What a character of quoted text is written as: the three that Slack reads as its own are
/// written as entities.
pub open spec fn entity(c: char) -> Seq<char> {
    if c == '&' {
        "&amp;"@
    } else if c == '<' {
        "&lt;"@
    } else if c == '>' {
        "&gt;"@
    } else {
        seq![c]
    }
}

/// A text with the characters that Slack reads as its own written as entities.
pub open spec fn escaped(text: Seq<char>) -> Seq<char>
    decreases text.len(),
{
    if text.len() == 0 {
        Seq::empty()
    } else {
        escaped(text.drop_last()) + entity(text.last())
    }
}

/// Escapes a text for Slack, each character once: the ampersands that escaping writes are
/// not escaped again.
pub fn escape(text: &str) -> (s: String)
    ensures
        s@ == escaped(text@),
{
    let chars = to_chars(text);
    let mut s = String::new();
    let mut i: usize = 0;
    assert(chars@.take(0) =~= Seq::empty());
    while i < chars.len()
        invariant
            i <= chars@.len(),
            s@ == escaped(chars@.take(i as int)),
        decreases chars.len() - i,
    {
        let c = chars[i];
        let ghost before = s@;
        if c == '&' {
            s.append("&amp;");
        } else if c == '<' {
            s.append("&lt;");
        } else if c == '>' {
            s.append("&gt;");
        } else {
            s.push(c);
            assert(s@ =~= before + seq![c]);
        }
        i = i + 1;
        assert(chars@.take(i as int).drop_last() =~= chars@.take(i - 1));
    }
    assert(chars@.take(i as int) =~= text@);
    s
}

/// An escaped text holds neither of the characters that open and close what Slack reads as
/// its own.
pub proof fn escaped_text_has_no_brackets(text: Seq<char>, i: int)
    requires
        0 <= i < escaped(text).len(),
    ensures
        escaped(text)[i] != '<',
        escaped(text)[i] != '>',
    decreases text.len(),
{
    reveal_strlit("&amp;");
    reveal_strlit("&lt;");
    reveal_strlit("&gt;");
    let before = escaped(text.drop_last());
    if i < before.len() {
        escaped_text_has_no_brackets(text.drop_last(), i);
    } else {
        let last = entity(text.last());
        assert(escaped(text)[i] == last[i - before.len()]);
        let j = i - before.len();
        if text.last() == '&' {
            assert("&amp;"@[0] == '&' && "&amp;"@[1] == 'a' && "&amp;"@[2] == 'm' && "&amp;"@[3]
                == 'p' && "&amp;"@[4] == ';');
            assert("&amp;"@.len() == 5);
        } else if text.last() == '<' {
            assert("&lt;"@[0] == '&' && "&lt;"@[1] == 'l' && "&lt;"@[2] == 't' && "&lt;"@[3] == ';');
            assert("&lt;"@.len() == 4);
        } else if text.last() == '>' {
            assert("&gt;"@[0] == '&' && "&gt;"@[1] == 'g' && "&gt;"@[2] == 't' && "&gt;"@[3] == ';');
            assert("&gt;"@.len() == 4);
        }
    }
}

/// A message as one post, for a message that has no blocks: the subject, and the body in a
/// code block, because it is aligned text.
pub open spec fn post_text_of(subject: Seq<char>, body: Seq<char>) -> Seq<char> {
    code_block(subject, fences_broken(trimmed_end(body)))
}

/// Writes a message as one post.
pub fn post_text(message: &NotificationMessage) -> (text: String)
    ensures
        text@ == post_text_of(message.subject@, message.body@),
        is_closed_only_at_its_end(text@, message.subject@),
{
    let mut text = "*".to_owned();
    text.append(message.subject.as_str());
    text.append("*\n```\n");
    text.append(fence_safe(trim_end(message.body.as_str()).as_str()).as_str());
    text.append("\n```");
    proof {
        let quoted = trimmed_end(message.body@);
        broken_text_has_no_fence(quoted);
        a_block_is_closed_only_at_its_end(message.subject@, fences_broken(quoted));
    }
    text
}

/// What one call to post a message sends.
#[derive(Debug)]
pub struct PostPayload<'a> {
    pub channel: String,
    /// Shown in a preview, and where blocks cannot be.
    pub text: String,
    pub blocks: Option<&'a Vec<Block>>,
}

/// Addresses a message to one conversation. One with blocks leaves the rest to them and puts
/// its subject in the text; one without has nowhere else to say what it says.
pub fn post_payload<'a>(channel: &str, message: &'a NotificationMessage) -> (payload: PostPayload<
    'a,
>)
    ensures
        payload.channel@ == channel@,
        match message.blocks {
            Some(blocks) => payload.blocks == Some(&blocks) && payload.text@ == message.subject@,
            None => payload.blocks is None && payload.text@ == post_text_of(
                message.subject@,
                message.body@,
            ),
        },
{
    match &message.blocks {
        Some(blocks) => PostPayload {
            channel: channel.to_owned(),
            text: message.subject.as_str().to_owned(),
            blocks: Some(blocks),
        },
        None => PostPayload {
            channel: channel.to_owned(),
            text: post_text(message),
            blocks: None,
        },
    }
}

/// What Slack answers a post with. It refuses one with `ok: false` under a status that says
/// success.
#[derive(Clone, Debug)]
pub struct SlackResponse {
    pub ok: bool,
    pub error: String,
}

/// Why a post was not delivered, if it was not. An answer that is not Slack's is reported as
/// what it said.
pub open spec fn refusal(
    status: Seq<char>,
    body: Seq<char>,
    parsed: Option<SlackResponse>,
) -> Option<Seq<char>> {
    match parsed {
        None => Some("Slack answered "@ + status + " with "@ + trimmed(body)),
        Some(response) => if response.ok {
            None
        } else {
            Some("Slack refused the message: "@ + response.error@)
        },
    }
}

/// Reads an answer to a post: its status, its body, and what the body says if it is Slack's.
pub fn read_answer(status: &str, body: &str, parsed: &Option<SlackResponse>) -> (r: Result<
    (),
    String,
>)
    ensures
        r is Ok <==> refusal(status@, body@, *parsed) is None,
        r matches Err(e) ==> refusal(status@, body@, *parsed) == Some(e@),
{
    match parsed {
        None => {
            let mut e = "Slack answered ".to_owned();
            e.append(status);
            e.append(" with ");
            e.append(trim(body).as_str());
            Err(e)
        },
        Some(response) => {
            if response.ok {
                Ok(())
            } else {
                let mut e = "Slack refused the message: ".to_owned();
                e.append(response.error.as_str());
                Err(e)
            }
        },
    }
}

/// What became of each post: the conversation, and the error if it was not delivered.
pub open spec fn failed_posts(posts: Seq<(String, Result<(), String>)>) -> Seq<Seq<char>>
    decreases posts.len(),
{
    if posts.len() == 0 {
        Seq::empty()
    } else {
        let before = failed_posts(posts.drop_last());
        match posts.last().1 {
            Ok(_) => before,
            Err(e) => before.push(posts.last().0@ + ": "@ + e@),
        }
    }
}

/// Sums up the posts of one message. One conversation that refuses does not stop the others,
/// but the message was delivered only if none did.
pub fn sum_up_posts(posts: &Vec<(String, Result<(), String>)>) -> (r: Result<(), String>)
    ensures
        r is Ok <==> failed_posts(posts@).len() == 0,
        r matches Err(e) ==> e@ == joined(failed_posts(posts@), "; "@),
{
    let mut errors: Vec<String> = Vec::new();
    let mut i: usize = 0;
    assert(posts@.take(0) =~= Seq::empty());
    assert(texts(errors@) =~= failed_posts(posts@.take(0)));
    while i < posts.len()
        invariant
            i <= posts@.len(),
            texts(errors@) == failed_posts(posts@.take(i as int)),
        decreases posts.len() - i,
    {
        assert(posts@.take(i + 1).drop_last() =~= posts@.take(i as int));
        match &posts[i].1 {
            Ok(_) => {},
            Err(e) => {
                let mut error = posts[i].0.as_str().to_owned();
                error.append(": ");
                error.append(e.as_str());
                let ghost before = texts(errors@);
                let ghost said = error@;
                errors.push(error);
                assert(texts(errors@) =~= before.push(said));
            },
        }
        i = i + 1;
    }
    assert(posts@.take(i as int) =~= posts@);
    assert(texts(errors@).len() == errors@.len());
    if errors.len() > 0 {
        return Err(join(&errors, "; "));
    }
    Ok(())
}

/// A message with one refused conversation is never recorded as delivered.
pub proof fn one_refusal_fails_the_message(posts: Seq<(String, Result<(), String>)>, i: int)
    requires
        0 <= i < posts.len(),
        posts[i].1 is Err,
    ensures
        failed_posts(posts).len() > 0,
    decreases posts.len(),
{
    if i < posts.len() - 1 {
        one_refusal_fails_the_message(posts.drop_last(), i);
    }
}

/// A text is escaped one character after another: what two texts escape to is what the first
/// does followed by what the second does, and a character that Slack does not read as its own
/// is written as it is.
pub proof fn characters_are_escaped_one_by_one(first: Seq<char>, second: Seq<char>)
    ensures
        escaped(first + second) == escaped(first) + escaped(second),
        first.len() == 0 ==> escaped(first).len() == 0,
        first.len() == 1 && first[0] != '&' && first[0] != '<' && first[0] != '>' ==> escaped(first)
            == first,
        first.len() == 1 && first[0] == '&' ==> escaped(first) == "&amp;"@,
        first.len() == 1 && first[0] == '<' ==> escaped(first) == "&lt;"@,
        first.len() == 1 && first[0] == '>' ==> escaped(first) == "&gt;"@,
    decreases second.len(),
{
    reveal_with_fuel(escaped, 2);
    if first.len() == 1 {
        assert(first.drop_last() =~= Seq::<char>::empty());
        assert(escaped(first) =~= entity(first[0]));
        assert(seq![first[0]] =~= first);
    }
    if second.len() == 0 {
        assert(first + second =~= first);
        assert(escaped(first) + escaped(second) =~= escaped(first));
    } else {
        characters_are_escaped_one_by_one(first, second.drop_last());
        assert((first + second).drop_last() =~= first + second.drop_last());
        assert(escaped(first + second) =~= escaped(first) + escaped(second));
    }
}

/// A post was delivered exactly where Slack itself says so: an answer that is not Slack's, and
/// one in which it refuses, say why it was not, whatever status they came under.
pub proof fn only_slacks_own_word_counts(
    status: Seq<char>,
    body: Seq<char>,
    parsed: Option<SlackResponse>,
)
    ensures
        refusal(status, body, parsed) is None <==> parsed is Some && parsed->0.ok,
        parsed is Some && !parsed->0.ok ==> refusal(status, body, parsed) == Some(
            "Slack refused the message: "@ + parsed->0.error@,
        ),
{
}

/// Exactly the posts that failed are named, each with its own error and in the order they were
/// made: what is named of two lots of posts is what is of the first and then of the second.
pub proof fn failed_posts_are_named_in_order(
    first: Seq<(String, Result<(), String>)>,
    second: Seq<(String, Result<(), String>)>,
)
    ensures
        failed_posts(first + second) == failed_posts(first) + failed_posts(second),
        first.len() == 0 ==> failed_posts(first).len() == 0,
        first.len() == 1 && first[0].1 is Ok ==> failed_posts(first).len() == 0,
        first.len() == 1 && first[0].1 is Err ==> failed_posts(first) == seq![
            first[0].0@ + ": "@ + first[0].1->Err_0@,
        ],
    decreases second.len(),
{
    reveal_with_fuel(failed_posts, 2);
    if first.len() == 1 {
        assert(first.drop_last() =~= Seq::empty());
        if first[0].1 is Err {
            assert(failed_posts(first) =~= seq![first[0].0@ + ": "@ + first[0].1->Err_0@]);
        }
    }
    if second.len() == 0 {
        assert(first + second =~= first);
        assert(failed_posts(first) + failed_posts(second) =~= failed_posts(first));
    } else {
        failed_posts_are_named_in_order(first, second.drop_last());
        assert((first + second).drop_last() =~= first + second.drop_last());
        assert(failed_posts(first + second) =~= failed_posts(first) + failed_posts(second));
    }
}

} // verus!
