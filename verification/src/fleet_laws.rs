//! What holds of the raft: what is read of a node, and how it is reached.
use crate::fleet::{
    fake_peer, fake_peers, member_peers, node_peer, qr_of, status_peers, tailscale_bin,
    without_dots, PeerView,
};
use crate::json::{lookup, Tree};
use crate::outside::{drawable, qr_picture};
use crate::text_laws::law_parting;
use vstd::prelude::*;
use vstd::utf8::encode_utf8;

verus! {

// ---------------------------------------------------------------- nodes --

/// Only dots are taken from the end of a name, and all of them.
pub proof fn law_dots_are_stripped(s: Seq<char>)
    ensures
        without_dots(s).len() <= s.len(),
        without_dots(s) == s.take(without_dots(s).len() as int),
        without_dots(s).len() > 0 ==> without_dots(s).last() != '.',
        forall|k: int| without_dots(s).len() <= k < s.len() ==> #[trigger] s[k] == '.',
    decreases s.len(),
{
    if s.len() > 0 && s.last() == '.' {
        let t = s.drop_last();
        law_dots_are_stripped(t);
        assert(t.take(without_dots(t).len() as int) =~= s.take(without_dots(t).len() as int));
        assert forall|k: int| without_dots(s).len() <= k < s.len() implies #[trigger] s[k] == '.' by {
            if k < t.len() {
                assert(t[k] == s[k]);
            }
        }
    } else {
        assert(s.take(s.len() as int) =~= s);
    }
}

/// What is read of a node, this machine or another: a node without a host
/// name is none. It is reached by its DNS name without the dots at its end, or
/// by its first address where it has no such name, whatever its host name is;
/// and it is online where it says so, or where it is this machine.
pub proof fn law_nodes(node: Tree, is_self: bool)
    ensures
        node_peer(node, is_self) is None <==> node.text("HostName"@).len() == 0,
        node_peer(node, is_self) matches Some(p) ==> {
            let dns = node.text("DNSName"@);
            &&& p.name == node.text("HostName"@)
            &&& p.ip == node.first_text("TailscaleIPs"@)
            &&& p.os == node.text("OS"@)
            &&& p.is_self == is_self
            &&& p.online <==> is_self || node.flag("Online"@)
            &&& dns.len() == 0 ==> p.addr == p.ip
            &&& dns.len() > 0 ==> {
                &&& p.addr.len() <= dns.len()
                &&& p.addr == dns.take(p.addr.len() as int)
                &&& p.addr.len() > 0 ==> p.addr.last() != '.'
                &&& forall|k: int| p.addr.len() <= k < dns.len() ==> #[trigger] dns[k] == '.'
            }
        },
{
    law_dots_are_stripped(node.text("DNSName"@));
}

/// A member of an object is the first of its name, and a value that is no
/// object has none.
pub proof fn law_members(members: Seq<(Seq<char>, Tree)>, key: Seq<char>, i: int)
    ensures
        (forall|j: int| 0 <= j < members.len() ==> (#[trigger] members[j]).0 != key)
            ==> Tree::Object(members).member(key) is None,
        0 <= i < members.len() && members[i].0 == key && (forall|j: int|
            0 <= j < i ==> (#[trigger] members[j]).0 != key) ==> Tree::Object(members).member(key)
            == Some(members[i].1),
        Tree::Null.member(key) is None,
        Tree::Number.member(key) is None,
        forall|b: bool| #[trigger] Tree::Bool(b).member(key) is None,
        forall|s: Seq<char>| #[trigger] Tree::Text(s).member(key) is None,
        forall|a: Seq<Tree>| #[trigger] Tree::Array(a).member(key) is None,
    decreases members.len(),
{
    if members.len() > 0 {
        let rest = members.drop_first();
        law_members(rest, key, i - 1);
        assert forall|j: int| 0 <= j < rest.len() implies #[trigger] rest[j] == members[j + 1] by {}
        if members[0].0 != key {
            assert(lookup(members, key) == lookup(rest, key));
            if forall|j: int| 0 <= j < members.len() ==> (#[trigger] members[j]).0 != key {
                assert forall|j: int| 0 <= j < rest.len() implies (#[trigger] rest[j]).0 != key by {
                    assert(members[j + 1].0 != key);
                }
            }
            if 0 < i < members.len() && members[i].0 == key && (forall|j: int|
                0 <= j < i ==> (#[trigger] members[j]).0 != key) {
                assert(rest[i - 1] == members[i]);
                assert forall|j: int| 0 <= j < i - 1 implies (#[trigger] rest[j]).0 != key by {
                    assert(members[j + 1].0 != key);
                }
            }
        }
    }
}

/// A text, a flag or a first text is read where the member holds one, and is
/// empty, or not set, where it holds anything else or is not there.
pub proof fn law_members_are_read(node: Tree, key: Seq<char>)
    ensures
        node.member(key) is None ==> node.text(key).len() == 0 && !node.flag(key)
            && node.first_text(key).len() == 0,
        node.member(key) matches Some(found) ==> {
            &&& found matches Tree::Text(s) ==> node.text(key) == s
            &&& found !is Text ==> node.text(key).len() == 0
            &&& node.flag(key) <==> (found matches Tree::Bool(b) && b)
            &&& found matches Tree::Array(items) ==> {
                &&& items.len() == 0 || items[0] !is Text ==> node.first_text(key).len() == 0
                &&& items.len() > 0 ==> (items[0] matches Tree::Text(s) ==> node.first_text(key)
                    == s)
            }
            &&& found !is Array ==> node.first_text(key).len() == 0
        },
{
}

/// The machines of a status: this one, where it has a name, and then every
/// named one among the others, in their order.
pub proof fn law_machines(
    status: Tree,
    own: Tree,
    members: Seq<(Seq<char>, Tree)>,
    a: Seq<(Seq<char>, Tree)>,
    b: Seq<(Seq<char>, Tree)>,
)
    ensures
        status.member("Self"@) == Some(own) && status.member("Peer"@) == Some(Tree::Object(members))
            ==> status_peers(status) == (match node_peer(own, true) {
            Some(p) => seq![p],
            None => Seq::<PeerView>::empty(),
        }) + member_peers(members),
        status.member("Self"@) is None && status.member("Peer"@) == Some(Tree::Object(members))
            ==> status_peers(status) == member_peers(members),
        status.member("Self"@) is None && status.member("Peer"@) is None ==> status_peers(
            status,
        ).len() == 0,
        member_peers(a + b) == member_peers(a) + member_peers(b),
        members.len() == 1 ==> member_peers(members) == (match node_peer(members[0].1, false) {
            Some(p) => seq![p],
            None => Seq::<PeerView>::empty(),
        }),
{
    lemma_members_join(a, b);
    if members.len() == 1 {
        assert(members.drop_last() =~= seq![]);
        assert(member_peers(members.drop_last()) =~= seq![]);
        assert(members.last() == members[0]);
        if let Some(p) = node_peer(members[0].1, false) {
            assert(member_peers(members) =~= seq![p]);
        }
    }
    assert(Seq::<PeerView>::empty() + member_peers(members) =~= member_peers(members));
}

proof fn lemma_members_join(a: Seq<(Seq<char>, Tree)>, b: Seq<(Seq<char>, Tree)>)
    ensures
        member_peers(a + b) == member_peers(a) + member_peers(b),
    decreases b.len(),
{
    if b.len() == 0 {
        assert(a + b =~= a);
        assert(member_peers(a) + member_peers(b) =~= member_peers(a));
    } else {
        assert((a + b).drop_last() =~= a + b.drop_last());
        lemma_members_join(a, b.drop_last());
        assert(member_peers(a + b) =~= member_peers(a) + member_peers(b));
    }
}

// -------------------------------------------------------------- boarding --

/// A machine is boarded as the user that is logged in, root where nobody is
/// named, at its address; a phone is given the same as an `ssh://` address.
pub proof fn law_ssh_targets(p: PeerView, user: Seq<char>)
    ensures
        p.target(Some(user)) == user + seq!['@'] + p.addr,
        p.target(None) == "root"@ + seq!['@'] + p.addr,
        p.uri(Some(user)) == "ssh://"@ + user + seq!['@'] + p.addr,
        p.uri(None) == "ssh://root@"@ + p.addr,
{
    reveal_strlit("@");
    reveal_strlit("ssh://");
    reveal_strlit("root");
    reveal_strlit("ssh://root@");
    assert("@"@ =~= seq!['@']);
    assert(p.uri(Some(user)) =~= "ssh://"@ + user + seq!['@'] + p.addr);
    assert(p.uri(None) =~= "ssh://root@"@ + p.addr);
}

/// First the `tailscale` on the path is asked, then the one that the Mac app
/// brings, then none.
pub proof fn law_tailscale_binaries(n: nat)
    ensures
        tailscale_bin(0) == Some("tailscale"@),
        tailscale_bin(1) == Some("/Applications/Tailscale.app/Contents/MacOS/Tailscale"@),
        n >= 2 ==> tailscale_bin(n) is None,
{
}

/// The QR code of a text is the picture of its bytes, wherever one is drawn.
pub proof fn law_qr_codes(content: Seq<char>)
    ensures
        qr_of(content) is Ok ==> qr_of(content) == qr_picture(encode_utf8(content)),
        drawable(encode_utf8(content)) ==> qr_of(content) == qr_picture(encode_utf8(content)),
{
}

// ----------------------------------------------------------------- fake --

/// An entry of a made-up tailnet is a name and an address with `=` between
/// them, and stands for a machine that is online unless `,offline` follows.
pub proof fn law_made_up_machines(name: Seq<char>, ip: Seq<char>, note: Seq<char>)
    requires
        !name.contains('='),
        !name.contains(','),
        !ip.contains(','),
        !note.contains(','),
    ensures
        fake_peer(name) is None,
        fake_peer(name + seq!['='] + ip) == Some(
            PeerView { name, addr: ip, ip, os: "linux"@, online: true, is_self: false },
        ),
        fake_peer(name + seq!['='] + ip + seq![','] + note) == Some(
            PeerView { name, addr: ip, ip, os: "linux"@, online: note != "offline"@, is_self: false },
        ),
{
    let head = name + seq!['='] + ip;
    assert(!head.contains(',')) by {
        if head.contains(',') {
            let k = choose|k: int| 0 <= k < head.len() && head[k] == ',';
            if k < name.len() {
                assert(name[k] == ',');
            } else if k > name.len() {
                assert(ip[k - name.len() - 1] == ',');
            }
        }
    }
    assert(head =~= name.push('=') + ip);
    law_parting(name, '=', ip);
    law_parting(name, ',', note);
    law_parting(head, ',', note);
    law_parting(note, ',', note);
    assert(head[name.len() as int] == '=');
    assert(head.contains('='));
    assert(head + seq![','] + note =~= head.push(',') + note);
}

/// A made-up tailnet holds the machines of its entries, in their order.
pub proof fn law_made_up_tailnets(a: Seq<Seq<char>>, b: Seq<Seq<char>>, entry: Seq<char>)
    ensures
        fake_peers(a + b) == fake_peers(a) + fake_peers(b),
        fake_peers(seq![entry]) == (match fake_peer(entry) {
            Some(p) => seq![p],
            None => Seq::<PeerView>::empty(),
        }),
    decreases b.len(),
{
    assert(seq![entry].drop_last() =~= seq![]);
    assert(fake_peers(seq![entry].drop_last()) =~= seq![]);
    if let Some(p) = fake_peer(entry) {
        assert(fake_peers(seq![entry]) =~= seq![p]);
    }
    if b.len() == 0 {
        assert(a + b =~= a);
        assert(fake_peers(a) + fake_peers(b) =~= fake_peers(a));
    } else {
        assert((a + b).drop_last() =~= a + b.drop_last());
        law_made_up_tailnets(a, b.drop_last(), entry);
        assert(fake_peers(a + b) =~= fake_peers(a) + fake_peers(b));
    }
}

} // verus!
