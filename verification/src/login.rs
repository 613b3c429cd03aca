//! Login records: which sessions a user has left running.

use vstd::prelude::*;
use vstd::string::*;

use crate::display::begins_with;
use crate::text::{chars_of, decimal, push_decimal, text_eq};
use crate::views::{group_views, views};

verus! {

broadcast use group_views;

/// One login record, reduced to the fields the server reads.
#[derive(Debug, Clone, PartialEq, Eq)]
pub struct Entry {
    pub user: String,
    pub line: String,
    pub host: String,
}

/// A login record.
#[verifier::ext_equal]
pub struct EntryView {
    pub user: Seq<char>,
    pub line: Seq<char>,
    pub host: Seq<char>,
}

impl View for Entry {
    type V = EntryView;

    open spec fn view(&self) -> EntryView {
        EntryView { user: self.user@, line: self.line@, host: self.host@ }
    }
}

/// May a text name a terminal device? It always has to resolve directly under `/dev`, so
/// that a record cannot be used to ask whether some unrelated file exists.
pub open spec fn device_name(line: Seq<char>) -> bool {
    &&& line.len() > 0
    &&& line != "."@
    &&& line != ".."@
    &&& forall|i: int| 0 <= i < line.len() ==> #[trigger] line[i] != '/'
}

/// May a text name a terminal device?
pub fn names_device(line: &str) -> (b: bool)
    ensures
        b == device_name(line@),
{
    let chars = chars_of(line);
    if chars.len() == 0 || text_eq(line, ".") || text_eq(line, "..") {
        return false;
    }
    let mut i: usize = 0;
    while i < chars.len()
        invariant
            chars@ == line@,
            i <= line@.len(),
            forall|k: int| 0 <= k < i ==> #[trigger] line@[k] != '/',
        decreases line@.len() - i,
    {
        if chars[i] == '/' {
            return false;
        }
        i = i + 1;
    }
    true
}

/// Is a host field one that a server wrote?
pub open spec fn server_host(host: Seq<char>) -> bool {
    begins_with(host, "mosh ["@) && host.last() == ']'
}

fn is_server_host(host: &str) -> (b: bool)
    ensures
        b == server_host(host@),
{
    let chars = chars_of(host);
    let prefix = chars_of("mosh [");
    proof {
        reveal_strlit("mosh [");
    }
    if chars.len() < prefix.len() {
        return false;
    }
    let head = vstd::slice::slice_subrange(chars.as_slice(), 0, prefix.len());
    crate::text::chars_eq(head, prefix.as_slice()) && chars[chars.len() - 1] == ']'
}

/// Is a record that of a session the user has left running? A live session still owns its
/// pty; without that every server that crashed would be reported forever.
pub open spec fn left_running(e: EntryView, username: Seq<char>, ignore: Seq<char>, exists: bool) ->
    bool {
    e.user == username && e.host != ignore && server_host(e.host) && exists
}

/// The sessions that a user has left running, in database order.
pub open spec fn sessions_left(
    entries: Seq<EntryView>,
    username: Seq<char>,
    ignore: Seq<char>,
    exists: Seq<bool>,
) -> Seq<Seq<char>>
    decreases entries.len(),
{
    if entries.len() == 0 {
        Seq::empty()
    } else {
        let before = sessions_left(entries.drop_last(), username, ignore, exists);
        let n = entries.len() - 1;
        if left_running(entries[n], username, ignore, exists[n]) {
            before.push(entries[n].host)
        } else {
            before
        }
    }
}

/// Sessions a user has left running on this machine, given all records and whether the
/// device that each names exists. `ignore` is the server's own record, which is not news
/// to the person who just created it.
pub fn detached_sessions(entries: &[Entry], username: &str, ignore: &str, exists: &[bool]) -> (hosts:
    Vec<String>)
    requires
        entries@.len() == exists@.len(),
    ensures
        views(hosts@) == sessions_left(views(entries@), username@, ignore@, exists@),
{
    let ghost all = views(entries@);
    let mut hosts: Vec<String> = Vec::new();
    let mut i: usize = 0;
    assert(all.subrange(0, 0) =~= Seq::empty());
    assert(views(hosts@) =~= Seq::empty());
    while i < entries.len()
        invariant
            all == views(entries@),
            all.len() == exists@.len(),
            i <= all.len(),
            views(hosts@) == sessions_left(
                all.subrange(0, i as int),
                username@,
                ignore@,
                exists@,
            ),
        decreases all.len() - i,
    {
        let ghost next = all.subrange(0, i + 1);
        assert(next.drop_last() =~= all.subrange(0, i as int));
        let e = &entries[i];
        assert(next[i as int] == e@);
        if text_eq(e.user.as_str(), username) && !text_eq(e.host.as_str(), ignore)
            && is_server_host(e.host.as_str()) && exists[i] {
            hosts.push(e.host.clone());
        }
        i = i + 1;
    }
    assert(all.subrange(0, i as int) =~= all);
    hosts
}

/// The server's own session is never among those that are reported.
pub proof fn own_session_is_not_reported(
    entries: Seq<EntryView>,
    username: Seq<char>,
    ignore: Seq<char>,
    exists: Seq<bool>,
)
    ensures
        !sessions_left(entries, username, ignore, exists).contains(ignore),
    decreases entries.len(),
{
    if entries.len() > 0 {
        own_session_is_not_reported(entries.drop_last(), username, ignore, exists);
        let before = sessions_left(entries.drop_last(), username, ignore, exists);
        let all = sessions_left(entries, username, ignore, exists);
        assert forall|i: int| 0 <= i < all.len() implies all[i] != ignore by {
            if i < before.len() {
                assert(all[i] == before[i]);
                assert(before.contains(before[i]));
            }
        }
    }
}

/// One line for each session.
pub open spec fn session_lines(detached: Seq<Seq<char>>) -> Seq<char>
    decreases detached.len(),
{
    if detached.len() == 0 {
        Seq::empty()
    } else {
        session_lines(detached.drop_last()) + "        - "@ + detached.last() + "\n"@
    }
}

/// What to tell the user about sessions they have left running.
pub open spec fn unattached_text(detached: Seq<Seq<char>>) -> Seq<char> {
    if detached.len() == 0 {
        Seq::empty()
    } else if detached.len() == 1 {
        "\x1b[37;44mMosh: You have a detached Mosh session on this server ("@ + detached[0]
            + ").\x1b[m\n\n"@
    } else {
        "\x1b[37;44mMosh: You have "@ + decimal(detached.len())
            + " detached Mosh sessions on this server, with PIDs:\n"@ + session_lines(detached)
            + "\x1b[m\n"@
    }
}

/// What to tell the user about sessions they have left running.
pub fn unattached_message(detached: &[String]) -> (s: String)
    ensures
        s@ == unattached_text(views(detached@)),
{
    let ghost all = views(detached@);
    if detached.len() == 0 {
        let s = String::new();
        assert(s@ =~= Seq::empty());
        return s;
    }
    if detached.len() == 1 {
        assert(all[0] == detached@[0]@);
        return crate::opts::joined3(
            "\x1b[37;44mMosh: You have a detached Mosh session on this server (",
            detached[0].as_str(),
            ").\x1b[m\n\n",
        );
    }
    let mut s = "\x1b[37;44mMosh: You have ".to_owned();
    push_decimal(&mut s, detached.len() as u64);
    s.append(" detached Mosh sessions on this server, with PIDs:\n");
    let ghost head = s@;
    let mut i: usize = 0;
    assert(all.subrange(0, 0) =~= Seq::empty());
    assert(s@ =~= head + session_lines(all.subrange(0, 0)));
    while i < detached.len()
        invariant
            all == views(detached@),
            i <= all.len(),
            s@ == head + session_lines(all.subrange(0, i as int)),
        decreases all.len() - i,
    {
        let ghost next = all.subrange(0, i + 1);
        assert(next.drop_last() =~= all.subrange(0, i as int));
        assert(next.last() == detached@[i as int]@);
        s.append("        - ");
        s.append(detached[i].as_str());
        s.append("\n");
        assert(s@ =~= head + session_lines(next));
        i = i + 1;
    }
    assert(all.subrange(0, i as int) =~= all);
    s.append("\x1b[m\n");
    s
}

} // verus!
