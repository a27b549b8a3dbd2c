//! Parsing of one line of interactive input into a command: `/quit`, `/peers`,
//! `/img <path>`, `/vid <path>`, or free text to broadcast.

use vstd::prelude::*;

use crate::bytes::copy_range;

verus! {

/// What one line of input asks for.
pub enum Command {
    /// Terminate the input loop.
    Quit,
    /// List the current registry snapshot.
    Peers,
    /// Read the file at this path and broadcast it as an image.
    Image(Vec<u8>),
    /// Read the file at this path and broadcast it as a video.
    Video(Vec<u8>),
    /// Broadcast this text.
    Text(Vec<u8>),
}

/// Mathematical model of a `Command`.
pub enum CommandView {
    Quit,
    Peers,
    Image(Seq<u8>),
    Video(Seq<u8>),
    Text(Seq<u8>),
}

impl View for Command {
    type V = CommandView;

    open spec fn view(&self) -> CommandView {
        match self {
            Command::Quit => CommandView::Quit,
            Command::Peers => CommandView::Peers,
            Command::Image(p) => CommandView::Image(p@),
            Command::Video(p) => CommandView::Video(p@),
            Command::Text(t) => CommandView::Text(t@),
        }
    }
}

/// The bytes of "/quit".
pub open spec fn quit_lit() -> Seq<u8> {
    seq![47u8, 113u8, 117u8, 105u8, 116u8]
}

/// The bytes of "/peers".
pub open spec fn peers_lit() -> Seq<u8> {
    seq![47u8, 112u8, 101u8, 101u8, 114u8, 115u8]
}

/// The bytes of "/img " (trailing space included).
pub open spec fn img_prefix() -> Seq<u8> {
    seq![47u8, 105u8, 109u8, 103u8, 32u8]
}

/// The bytes of "/vid " (trailing space included).
pub open spec fn vid_prefix() -> Seq<u8> {
    seq![47u8, 118u8, 105u8, 100u8, 32u8]
}

/// `s` begins with `p`.
pub open spec fn starts_with(s: Seq<u8>, p: Seq<u8>) -> bool {
    s.len() >= p.len() && s.take(p.len() as int) == p
}

/// What a line of input means: the two exact commands, the two prefixed
/// commands whose argument is the rest of the line, and otherwise free text.
pub open spec fn spec_parse_command(line: Seq<u8>) -> CommandView {
    if line == quit_lit() {
        CommandView::Quit
    } else if line == peers_lit() {
        CommandView::Peers
    } else if starts_with(line, img_prefix()) {
        CommandView::Image(line.skip(5))
    } else if starts_with(line, vid_prefix()) {
        CommandView::Video(line.skip(5))
    } else {
        CommandView::Text(line)
    }
}

/// Whether two byte vectors hold the same bytes.
fn bytes_eq(a: &Vec<u8>, b: &Vec<u8>) -> (r: bool)
    ensures
        r == (a@ == b@),
{
    if a.len() != b.len() {
        return false;
    }
    let mut i: usize = 0;
    while i < a.len()
        invariant
            i <= a@.len(),
            a@.len() == b@.len(),
            forall|j: int| 0 <= j < i ==> a@[j] == b@[j],
        decreases a@.len() - i,
    {
        if a[i] != b[i] {
            proof {
                assert(a@[i as int] != b@[i as int]);
            }
            return false;
        }
        i = i + 1;
    }
    proof {
        assert(a@ =~= b@);
    }
    true
}

/// Whether `a` begins with the bytes of `p`.
fn has_prefix(a: &Vec<u8>, p: &Vec<u8>) -> (r: bool)
    ensures
        r == starts_with(a@, p@),
{
    if a.len() < p.len() {
        return false;
    }
    let mut i: usize = 0;
    while i < p.len()
        invariant
            i <= p@.len() <= a@.len(),
            forall|j: int| 0 <= j < i ==> a@[j] == p@[j],
        decreases p@.len() - i,
    {
        if a[i] != p[i] {
            proof {
                assert(a@.take(p@.len() as int)[i as int] != p@[i as int]);
            }
            return false;
        }
        i = i + 1;
    }
    proof {
        assert(a@.take(p@.len() as int) =~= p@);
    }
    true
}

/// The bytes of "/quit", as a vector.
fn lit_quit() -> (r: Vec<u8>)
    ensures
        r@ == quit_lit(),
{
    let mut v: Vec<u8> = Vec::new();
    v.push(47);
    v.push(113);
    v.push(117);
    v.push(105);
    v.push(116);
    proof {
        assert(v@ =~= quit_lit());
    }
    v
}

/// The bytes of "/peers", as a vector.
fn lit_peers() -> (r: Vec<u8>)
    ensures
        r@ == peers_lit(),
{
    let mut v: Vec<u8> = Vec::new();
    v.push(47);
    v.push(112);
    v.push(101);
    v.push(101);
    v.push(114);
    v.push(115);
    proof {
        assert(v@ =~= peers_lit());
    }
    v
}

/// The bytes of "/img ", as a vector.
fn lit_img() -> (r: Vec<u8>)
    ensures
        r@ == img_prefix(),
{
    let mut v: Vec<u8> = Vec::new();
    v.push(47);
    v.push(105);
    v.push(109);
    v.push(103);
    v.push(32);
    proof {
        assert(v@ =~= img_prefix());
    }
    v
}

/// The bytes of "/vid ", as a vector.
fn lit_vid() -> (r: Vec<u8>)
    ensures
        r@ == vid_prefix(),
{
    let mut v: Vec<u8> = Vec::new();
    v.push(47);
    v.push(118);
    v.push(105);
    v.push(100);
    v.push(32);
    proof {
        assert(v@ =~= vid_prefix());
    }
    v
}

/// Parse one line of input into the command it means.
pub fn parse_command(line: &Vec<u8>) -> (r: Command)
    ensures
        r@ == spec_parse_command(line@),
{
    let quit = lit_quit();
    let peers = lit_peers();
    let img = lit_img();
    let vid = lit_vid();
    if bytes_eq(line, &quit) {
        Command::Quit
    } else if bytes_eq(line, &peers) {
        Command::Peers
    } else if has_prefix(line, &img) {
        let rest = copy_range(line, 5, line.len());
        proof {
            assert(rest@ =~= line@.skip(5));
        }
        Command::Image(rest)
    } else if has_prefix(line, &vid) {
        let rest = copy_range(line, 5, line.len());
        proof {
            assert(rest@ =~= line@.skip(5));
        }
        Command::Video(rest)
    } else {
        let text = copy_range(line, 0, line.len());
        proof {
            assert(text@ =~= line@);
        }
        Command::Text(text)
    }
}

} // verus!
