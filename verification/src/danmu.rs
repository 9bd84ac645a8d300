//! Handling of one server notification: recognising a chat message ("danmu"),
//! dropping repeats by message id, counting and formatting it.

use vstd::prelude::*;
use std::collections::VecDeque;
use crate::codec::{json_is_array_at, json_pointer_is_array, json_pointer_string, json_string_at, lookup_text};

verus! {

/// Number of ids the window holds before the oldest is dropped on insertion.
pub const WINDOW_LIMIT: usize = 30;

/// The receiver's state as the specification sees it: the recent message ids,
/// the number of messages counted in the current second, and the lines printed.
pub struct DanmuState {
    pub window: Seq<Seq<char>>,
    pub counter: u32,
    pub printed: Seq<Seq<char>>,
}

/// The texts of a sequence of strings.
pub open spec fn texts(s: Seq<String>) -> Seq<Seq<char>> {
    s.map_values(|x: String| x@)
}

/// The state held by the executable pieces.
pub open spec fn model(window: VecDeque<String>, counter: u32, printed: Vec<String>) -> DanmuState {
    DanmuState { window: texts(window@), counter, printed: texts(printed@) }
}

/// The window after `id` is recorded: when it holds more than 30 ids the oldest
/// leaves first.
pub open spec fn push_window(w: Seq<Seq<char>>, id: Seq<char>) -> Seq<Seq<char>> {
    if w.len() > 30 {
        w.drop_first().push(id)
    } else {
        w.push(id)
    }
}

/// The printed line of a message: `user 回复 reply：content` when it answers
/// someone, `user ：content` otherwise.
pub open spec fn danmu_line(user: Seq<char>, reply: Seq<char>, content: Seq<char>) -> Seq<char> {
    if reply.len() > 0 {
        user + " 回复 "@ + reply + "："@ + content
    } else {
        user + " ："@ + content
    }
}

/// What a chat message from `user` with id `id`, text `content`, answering
/// `reply` (empty when it answers no one) does to `st`: a message whose id is in
/// the window changes nothing; otherwise its id is recorded, it is counted and
/// its line printed. `None` where counting it overflows the counter (a panic).
pub open spec fn accept_step(
    user: Seq<char>,
    id: Seq<char>,
    content: Seq<char>,
    reply: Seq<char>,
    st: DanmuState,
) -> Option<DanmuState> {
    if st.window.contains(id) {
        Some(st)
    } else if st.counter == u32::MAX {
        None
    } else {
        Some(DanmuState {
            window: push_window(st.window, id),
            counter: (st.counter + 1) as u32,
            printed: st.printed.push(danmu_line(user, reply, content)),
        })
    }
}

/// The state in which taking in a message with id `id` panics (the counter is
/// full): the id is already recorded, nothing else changed.
pub open spec fn accept_panic_state(id: Seq<char>, st: DanmuState) -> DanmuState {
    DanmuState { window: push_window(st.window, id), counter: st.counter, printed: st.printed }
}

/// Whether the notification `text` is a chat message: its `cmd` is `DANMU_MSG`.
pub open spec fn is_danmu_cmd(text: Seq<char>) -> bool {
    json_pointer_string(text, "/cmd"@) == Some(Some("DANMU_MSG"@))
}

/// The string at `pointer` in `text`, if one stands there.
pub open spec fn str_field(text: Seq<char>, pointer: Seq<char>) -> Option<Seq<char>> {
    match json_pointer_string(text, pointer) {
        Some(Some(s)) => Some(s),
        _ => None,
    }
}

/// The sender's name, `info[2][1]`: `info` and `info[2]` are arrays and element 1
/// of the latter is a string.
pub open spec fn user_name_of(text: Seq<char>) -> Option<Seq<char>> {
    if json_pointer_is_array(text, "/info"@) == Some(true) && json_pointer_is_array(text, "/info/2"@) == Some(
        true,
    ) {
        str_field(text, "/info/2/1"@)
    } else {
        None
    }
}

/// The message's details, `info[0][15]["extra"]`: `info` and `info[0]` are
/// arrays and the member `extra` of element 15 of the latter is a string.
pub open spec fn extra_of(text: Seq<char>) -> Option<Seq<char>> {
    if json_pointer_is_array(text, "/info"@) == Some(true) && json_pointer_is_array(text, "/info/0"@) == Some(
        true,
    ) {
        str_field(text, "/info/0/15/extra"@)
    } else {
        None
    }
}

/// The fields of a chat message: sender, id, text and the name it answers
/// (`id_str`, `content`, `reply_uname` of the details, which are JSON text).
/// `None` when one of them is missing or not a string.
pub open spec fn danmu_fields(text: Seq<char>) -> Option<(Seq<char>, Seq<char>, Seq<char>, Seq<char>)> {
    match (user_name_of(text), extra_of(text)) {
        (Some(user), Some(extra)) => match (
            str_field(extra, "/id_str"@),
            str_field(extra, "/content"@),
            str_field(extra, "/reply_uname"@),
        ) {
            (Some(id), Some(content), Some(reply)) => Some((user, id, content, reply)),
            _ => None,
        },
        _ => None,
    }
}

/// What handling the notification `text` does to `st`: `None` where the
/// handling panics (a chat message missing one of its fields, or the counter full).
pub open spec fn danmu_step(text: Seq<char>, st: DanmuState) -> Option<DanmuState> {
    if !is_danmu_cmd(text) {
        Some(st)
    } else {
        match danmu_fields(text) {
            None => None,
            Some((user, id, content, reply)) => accept_step(user, id, content, reply, st),
        }
    }
}

/// The state in which handling `text` panics: unchanged when a field is
/// missing, `accept_panic_state` when the counter is full.
pub open spec fn danmu_panic_state(text: Seq<char>, st: DanmuState) -> DanmuState {
    match danmu_fields(text) {
        Some((user, id, content, reply)) => accept_panic_state(id, st),
        None => st,
    }
}

/// How a later state `st2` relates to an earlier `st`: the counter grew by the
/// number of lines printed since, earlier lines stay as they were, a window of
/// at most 31 ids stays so, and a window without repeated ids stays so.
pub open spec fn accounts(st: DanmuState, st2: DanmuState) -> bool {
    &&& st.printed.len() <= st2.printed.len()
    &&& st2.counter - st.counter == st2.printed.len() - st.printed.len()
    &&& st2.printed.subrange(0, st.printed.len() as int) == st.printed
    &&& st.window.len() <= 31 ==> st2.window.len() <= 31
    &&& st.window.no_duplicates() ==> st2.window.no_duplicates()
}

/// `accounts` is transitive.
pub proof fn lemma_accounts_trans(a: DanmuState, b: DanmuState, c: DanmuState)
    requires
        accounts(a, b),
        accounts(b, c),
    ensures
        accounts(a, c),
{
    assert(c.printed.subrange(0, a.printed.len() as int) == c.printed.subrange(0, b.printed.len() as int).subrange(
        0,
        a.printed.len() as int,
    ));
}

/// Every state relates to itself.
pub proof fn lemma_accounts_refl(a: DanmuState)
    ensures
        accounts(a, a),
{
    assert(a.printed.subrange(0, a.printed.len() as int) == a.printed);
}

/// Handling one notification counts exactly the line it prints (at most one),
/// keeps earlier lines, keeps a window of at most 31 ids so, and never records
/// an id twice.
pub proof fn lemma_danmu_step_accounts(text: Seq<char>, st: DanmuState)
    requires
        danmu_step(text, st) is Some,
    ensures
        accounts(st, danmu_step(text, st)->0),
        danmu_step(text, st)->0.printed.len() <= st.printed.len() + 1,
{
    let st2 = danmu_step(text, st)->0;
    if st2 == st {
        lemma_accounts_refl(st);
    } else {
        assert(st2.printed.subrange(0, st.printed.len() as int) == st.printed);
        let fields = danmu_fields(text)->0;
        let id = fields.1;
        assert(!st.window.contains(id));
        if st.window.no_duplicates() {
            if st.window.len() > 30 {
                let w1 = st.window.drop_first();
                assert forall|i: int, j: int| 0 <= i < j < w1.len() implies w1[i] != w1[j] by {
                    assert(w1[i] == st.window[i + 1]);
                    assert(w1[j] == st.window[j + 1]);
                }
                assert forall|i: int| 0 <= i < w1.len() implies w1[i] != id by {
                    assert(w1[i] == st.window[i + 1]);
                }
                assert(st2.window == w1.push(id));
                assert forall|i: int, j: int| 0 <= i < j < st2.window.len() implies st2.window[i] != st2.window[j] by {
                    if j == st2.window.len() - 1 {
                        assert(st2.window[j] == id);
                        assert(st2.window[i] == w1[i]);
                    } else {
                        assert(st2.window[i] == w1[i]);
                        assert(st2.window[j] == w1[j]);
                    }
                }
            } else {
                assert(st2.window == st.window.push(id));
                assert forall|i: int, j: int| 0 <= i < j < st2.window.len() implies st2.window[i] != st2.window[j] by {
                    if j == st2.window.len() - 1 {
                        assert(st2.window[i] == st.window[i]);
                    } else {
                        assert(st2.window[i] == st.window[i]);
                        assert(st2.window[j] == st.window[j]);
                    }
                }
            }
        }
    }
}

/// A notification handled twice is counted and printed once: handling it
/// again in the state it led to changes nothing.
pub proof fn lemma_danmu_repeat_is_dropped(text: Seq<char>, st: DanmuState)
    requires
        danmu_step(text, st) is Some,
    ensures
        danmu_step(text, danmu_step(text, st)->0) == danmu_step(text, st),
{
    let st2 = danmu_step(text, st)->0;
    if st2 != st {
        let fields = danmu_fields(text)->0;
        let id = fields.1;
        let w = push_window(st.window, id);
        assert(w[w.len() - 1] == id);
        assert(w.contains(id));
    }
}

/// A notification whose `cmd` is not exactly the string `DANMU_MSG` (another
/// command, no `cmd`, or not JSON) changes nothing and does not fail.
pub proof fn lemma_other_cmd_ignored(text: Seq<char>, st: DanmuState)
    requires
        json_pointer_string(text, "/cmd"@) != Some(Some("DANMU_MSG"@)),
    ensures
        danmu_step(text, st) == Some(st),
{
}

/// A chat message is read from its JSON: with `cmd` `DANMU_MSG`, `info` and its
/// elements 0 and 2 arrays, the sender at `info[2][1]`, and the details text at
/// `info[0][15].extra` holding `id_str`, `content` and `reply_uname`, a new id
/// is recorded last in the window, counted once, and the line of that sender,
/// reply and content printed; a known id changes nothing.
pub proof fn lemma_chat_message_read(
    text: Seq<char>,
    st: DanmuState,
    user: Seq<char>,
    extra: Seq<char>,
    id: Seq<char>,
    content: Seq<char>,
    reply: Seq<char>,
)
    requires
        json_pointer_string(text, "/cmd"@) == Some(Some("DANMU_MSG"@)),
        json_pointer_is_array(text, "/info"@) == Some(true),
        json_pointer_is_array(text, "/info/0"@) == Some(true),
        json_pointer_is_array(text, "/info/2"@) == Some(true),
        json_pointer_string(text, "/info/2/1"@) == Some(Some(user)),
        json_pointer_string(text, "/info/0/15/extra"@) == Some(Some(extra)),
        json_pointer_string(extra, "/id_str"@) == Some(Some(id)),
        json_pointer_string(extra, "/content"@) == Some(Some(content)),
        json_pointer_string(extra, "/reply_uname"@) == Some(Some(reply)),
    ensures
        st.window.contains(id) ==> danmu_step(text, st) == Some(st),
        !st.window.contains(id) && st.counter < u32::MAX ==> {
            &&& danmu_step(text, st) is Some
            &&& danmu_step(text, st)->0.counter == st.counter + 1
            &&& danmu_step(text, st)->0.printed == st.printed.push(danmu_line(user, reply, content))
            &&& danmu_step(text, st)->0.window.last() == id
            &&& danmu_step(text, st)->0.window.drop_last() =~= (if st.window.len() > 30 {
                st.window.drop_first()
            } else {
                st.window
            })
        },
        !st.window.contains(id) && st.counter == u32::MAX ==> danmu_step(text, st) is None,
{
}

/// A chat message whose sender or details are missing makes the handling panic.
pub proof fn lemma_chat_message_incomplete(text: Seq<char>, st: DanmuState)
    requires
        json_pointer_string(text, "/cmd"@) == Some(Some("DANMU_MSG"@)),
        json_pointer_string(text, "/info/2/1"@) is None || json_pointer_string(text, "/info/2/1"@) == Some(
            None::<Seq<char>>,
        ) || json_pointer_string(text, "/info/0/15/extra"@) is None || json_pointer_string(
            text,
            "/info/0/15/extra"@,
        ) == Some(None::<Seq<char>>),
    ensures
        danmu_step(text, st) is None,
{
}

/// The printed line ends with the whole content, begins with the sender, and
/// what stands before the content depends on the sender and reply alone: it is
/// the sender and ` ：` (2 characters), or the sender, ` 回复 ` (4 characters),
/// the reply and `：` (1 character).
pub proof fn lemma_line_shape(user: Seq<char>, reply: Seq<char>, content: Seq<char>, other: Seq<char>)
    ensures
        danmu_line(user, reply, content).subrange(
            danmu_line(user, reply, content).len() - content.len(),
            danmu_line(user, reply, content).len() as int,
        ) == content,
        danmu_line(user, reply, content).subrange(0, user.len() as int) == user,
        danmu_line(user, reply, content).subrange(0, danmu_line(user, reply, content).len() - content.len())
            == danmu_line(user, reply, other).subrange(0, danmu_line(user, reply, other).len() - other.len()),
        reply.len() == 0 ==> danmu_line(user, reply, content).len() == user.len() + 2 + content.len(),
        reply.len() > 0 ==> danmu_line(user, reply, content).len() == user.len() + 5 + reply.len() + content.len(),
        reply.len() > 0 ==> danmu_line(user, reply, content).subrange(user.len() + 4int, user.len() + 4int + reply.len())
            == reply,
{
    reveal_strlit(" 回复 ");
    reveal_strlit("：");
    reveal_strlit(" ：");
    let l = danmu_line(user, reply, content);
    let m = danmu_line(user, reply, other);
    if reply.len() > 0 {
        let pre = user + " 回复 "@ + reply + "："@;
        assert(l == pre + content);
        assert(m == pre + other);
        assert(l.subrange(l.len() - content.len(), l.len() as int) == content);
        assert(l.subrange(0, l.len() - content.len()) == pre);
        assert(m.subrange(0, m.len() - other.len()) == pre);
        assert(l.subrange(0, user.len() as int) == user);
        assert(l.subrange(user.len() + 4int, user.len() + 4int + reply.len()) == reply);
    } else {
        let pre = user + " ："@;
        assert(l == pre + content);
        assert(m == pre + other);
        assert(l.subrange(l.len() - content.len(), l.len() as int) == content);
        assert(l.subrange(0, l.len() - content.len()) == pre);
        assert(m.subrange(0, m.len() - other.len()) == pre);
        assert(l.subrange(0, user.len() as int) == user);
    }
}

/// Recording an id puts it last, keeps the ids before it in order, and drops
/// only the oldest id, only when more than 30 are held.
pub proof fn lemma_push_window_shape(w: Seq<Seq<char>>, id: Seq<char>)
    ensures
        push_window(w, id).last() == id,
        w.len() <= 30 ==> push_window(w, id).drop_last() == w,
        w.len() > 30 ==> push_window(w, id).drop_last() == w.subrange(1, w.len() as int),
        push_window(w, id).len() == if w.len() > 30 { w.len() } else { w.len() + 1 },
{
    assert(w.push(id).drop_last() == w);
    assert(w.drop_first().push(id).drop_last() == w.subrange(1, w.len() as int));
}

/// Whether `id` is among the ids of `window`.
pub fn window_contains(window: &VecDeque<String>, id: &String) -> (r: bool)
    ensures
        r == texts(window@).contains(id@),
{
    let mut i: usize = 0;
    while i < window.len()
        invariant
            i <= window@.len(),
            forall|j: int| 0 <= j < i ==> window@[j]@ != id@,
        decreases window@.len() - i,
    {
        if window[i] == *id {
            assert(texts(window@)[i as int] == id@);
            return true;
        }
        i = i + 1;
    }
    assert(!texts(window@).contains(id@)) by {
        if texts(window@).contains(id@) {
            let k = choose|k: int| 0 <= k < texts(window@).len() && texts(window@)[k] == id@;
            assert(window@[k]@ == id@);
        }
    }
    false
}

/// Records `id` in the window, dropping the oldest id when more than 30 are held.
pub fn record_id(window: &mut VecDeque<String>, id: String)
    ensures
        texts(final(window)@) == push_window(texts(old(window)@), id@),
{
    if window.len() > WINDOW_LIMIT {
        window.pop_front();
        assert(texts(window@) == texts(old(window)@).drop_first());
    }
    window.push_back(id);
    assert(texts(window@) == push_window(texts(old(window)@), id@));
}

/// Builds the printed line of a message.
pub fn format_danmu_line(user: &String, reply: &String, content: &String) -> (line: String)
    ensures
        line@ == danmu_line(user@, reply@, content@),
{
    let mut line = user.clone();
    if !reply.as_str().is_empty() {
        line.append(" 回复 ");
        line.append(reply.as_str());
        line.append("：");
    } else {
        line.append(" ：");
    }
    line.append(content.as_str());
    line
}

/// Handles one notification whose JSON text is `json_text`: a chat message
/// (`cmd` is `DANMU_MSG`) whose id is not in the window is recorded, counted and
/// its line printed; anything else leaves the state as it is.
/// Returns `false` exactly where the handling panics (`danmu_step` is `None`),
/// and the state is then the one in which it panics: unchanged for a chat
/// message missing a field, the id recorded when the counter is full.
pub fn handle_danmu_message(
    json_text: &str,
    existed_id_str: &mut VecDeque<String>,
    counter: &mut u32,
    printed: &mut Vec<String>,
) -> (ok: bool)
    ensures
        ok == danmu_step(json_text@, model(*old(existed_id_str), *old(counter), *old(printed))) is Some,
        ok ==> danmu_step(json_text@, model(*old(existed_id_str), *old(counter), *old(printed)))
            == Some(model(*final(existed_id_str), *final(counter), *final(printed))),
        !ok ==> model(*final(existed_id_str), *final(counter), *final(printed)) == danmu_panic_state(
            json_text@,
            model(*old(existed_id_str), *old(counter), *old(printed)),
        ),
{
    let expected: String = "DANMU_MSG".to_owned();
    let is_danmu = match json_string_at(json_text, "/cmd") {
        Some(Some(c)) => c == expected,
        _ => false,
    };
    if !is_danmu {
        return true;
    }
    match json_is_array_at(json_text, "/info") {
        Some(true) => {},
        _ => {
            return false;
        },
    }
    match json_is_array_at(json_text, "/info/2") {
        Some(true) => {},
        _ => {
            return false;
        },
    }
    let user = match json_string_at(json_text, "/info/2/1") {
        Some(Some(u)) => u,
        _ => {
            return false;
        },
    };
    match json_is_array_at(json_text, "/info/0") {
        Some(true) => {},
        _ => {
            return false;
        },
    }
    let extra = match json_string_at(json_text, "/info/0/15/extra") {
        Some(Some(e)) => e,
        _ => {
            return false;
        },
    };
    let message_id = match json_string_at(extra.as_str(), "/id_str") {
        Some(Some(v)) => v,
        _ => {
            return false;
        },
    };
    let content = match json_string_at(extra.as_str(), "/content") {
        Some(Some(v)) => v,
        _ => {
            return false;
        },
    };
    let reply_to = match json_string_at(extra.as_str(), "/reply_uname") {
        Some(Some(v)) => v,
        _ => {
            return false;
        },
    };
    accept_danmu(&user, message_id, &content, &reply_to, existed_id_str, counter, printed)
}

/// Takes in the chat message from `user` with id `message_id`, text `content`,
/// answering `reply_to`: see `accept_step`. Returns `false` exactly where that
/// panics (`accept_step` is `None`), with the state `accept_panic_state`.
pub fn accept_danmu(
    user: &String,
    message_id: String,
    content: &String,
    reply_to: &String,
    existed_id_str: &mut VecDeque<String>,
    counter: &mut u32,
    printed: &mut Vec<String>,
) -> (ok: bool)
    ensures
        ok == accept_step(user@, message_id@, content@, reply_to@,
            model(*old(existed_id_str), *old(counter), *old(printed))) is Some,
        ok ==> accept_step(user@, message_id@, content@, reply_to@,
            model(*old(existed_id_str), *old(counter), *old(printed)))
            == Some(model(*final(existed_id_str), *final(counter), *final(printed))),
        !ok ==> model(*final(existed_id_str), *final(counter), *final(printed)) == accept_panic_state(
            message_id@,
            model(*old(existed_id_str), *old(counter), *old(printed)),
        ),
{
    let line = format_danmu_line(user, reply_to, content);
    if window_contains(existed_id_str, &message_id) {
        return true;
    }
    record_id(existed_id_str, message_id);
    if *counter == u32::MAX {
        return false;
    }
    *counter = *counter + 1;
    printed.push(line);
    assert(texts(printed@) == texts(old(printed)@).push(line@));
    true
}

} // verus!
