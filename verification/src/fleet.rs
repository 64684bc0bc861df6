//! The raft: your machines, herded. Peers come from `tailscale status
//! --json`; boarding one is an ssh session captured like any other run.
use crate::json::{document, parse, Json, Tree};
use crate::order::{
    arranged, in_rank, law_arranging_keeps_items, law_sorting_is_determined, lemma_text_less, less, sorted, sorted_by, text_less,
    Ranked,
};
use crate::outside::{draw_qr, drawable, mask_qr, qr_picture};
use crate::qr::can_weigh_all;
use crate::text::{chars_of, same, split, split_of, split_once, text_of, texts};
use vstd::prelude::*;
use vstd::utf8::encode_utf8;

verus! {

pub struct Peer {
    /// Short hostname, for display.
    pub name: String,
    /// What we ssh to: the MagicDNS name when present, else the first IP.
    pub addr: String,
    pub ip: String,
    pub os: String,
    pub online: bool,
    pub is_self: bool,
}

/// A peer as contracts speak of it.
#[verifier::ext_equal]
pub ghost struct PeerView {
    pub name: Seq<char>,
    pub addr: Seq<char>,
    pub ip: Seq<char>,
    pub os: Seq<char>,
    pub online: bool,
    pub is_self: bool,
}

impl View for Peer {
    type V = PeerView;

    open spec fn view(&self) -> PeerView {
        PeerView {
            name: self.name@,
            addr: self.addr@,
            ip: self.ip@,
            os: self.os@,
            online: self.online,
            is_self: self.is_self,
        }
    }
}

impl Clone for Peer {
    fn clone(&self) -> (res: Self)
        ensures
            res@ == self@,
    {
        Peer {
            name: self.name.clone(),
            addr: self.addr.clone(),
            ip: self.ip.clone(),
            os: self.os.clone(),
            online: self.online,
            is_self: self.is_self,
        }
    }
}

pub open spec fn peer_views(v: Seq<Peer>) -> Seq<PeerView> {
    v.map_values(|p: Peer| p@)
}

/// Who logs in: `user`, or root where the environment names nobody.
pub open spec fn login(user: Option<Seq<char>>) -> Seq<char> {
    match user {
        Some(u) => u,
        None => "root"@,
    }
}

impl PeerView {
    pub open spec fn target(self, user: Option<Seq<char>>) -> Seq<char> {
        login(user) + "@"@ + self.addr
    }

    pub open spec fn uri(self, user: Option<Seq<char>>) -> Seq<char> {
        "ssh://"@ + self.target(user)
    }

    /// This machine first, then online before offline, then by name.
    pub open spec fn before(self, other: PeerView) -> bool {
        if self.is_self != other.is_self {
            self.is_self
        } else if self.online != other.online {
            self.online
        } else {
            text_less(self.name, other.name)
        }
    }
}

/// What an optional string holds.
pub open spec fn opt_text(s: Option<String>) -> Option<Seq<char>> {
    match s {
        Some(s) => Some(s@),
        None => None,
    }
}

impl Peer {
    /// ssh:// URI: what the QR code encodes and what phone terminals parse.
    pub fn ssh_uri(&self, user: &Option<String>) -> (res: String)
        ensures
            res@ == self@.uri(opt_text(*user)),
    {
        let mut out = "ssh://".to_owned();
        out.push_str(self.ssh_target(user).as_str());
        out
    }

    /// What `ssh` is told to board.
    pub fn ssh_target(&self, user: &Option<String>) -> (res: String)
        ensures
            res@ == self@.target(opt_text(*user)),
    {
        let mut out = match user {
            Some(u) => u.clone(),
            None => "root".to_owned(),
        };
        out.push_str("@");
        out.push_str(self.addr.as_str());
        out
    }
}

impl Ranked for Peer {
    open spec fn before(self, other: Self) -> bool {
        self@.before(other@)
    }

    fn goes_before(&self, other: &Self) -> (res: bool) {
        if self.is_self != other.is_self {
            self.is_self
        } else if self.online != other.online {
            self.online
        } else {
            less(self.name.as_str(), other.name.as_str())
        }
    }

    proof fn weak_order(a: Self, b: Self, c: Self) {
        lemma_text_less(a.name@, b.name@, c.name@);
    }
}

// ---------------------------------------------------------------- nodes --

/// `s` without the dots it ends with.
pub open spec fn without_dots(s: Seq<char>) -> Seq<char>
    decreases s.len(),
{
    if s.len() > 0 && s.last() == '.' {
        without_dots(s.drop_last())
    } else {
        s
    }
}

fn strip_dots(s: &str) -> (res: String)
    ensures
        res@ == without_dots(s@),
{
    let v = chars_of(s);
    let mut n: usize = v.len();
    assert(v@.take(n as int) =~= v@);
    while n > 0 && v[n - 1] == '.'
        invariant
            n <= v@.len(),
            without_dots(v@) == without_dots(v@.take(n as int)),
        decreases n,
    {
        assert(v@.take(n as int).last() == v@[n - 1]);
        assert(v@.take(n as int).drop_last() =~= v@.take(n - 1));
        n = n - 1;
    }
    assert(n > 0 ==> v@.take(n as int).last() == v@[n - 1]);
    assert(v@.take(n as int) =~= v@.subrange(0, n as int));
    text_of(&v[0..n])
}

/// The peer that a node of the tailnet's status stands for; none where it has
/// no name.
pub open spec fn node_peer(node: Tree, is_self: bool) -> Option<PeerView> {
    let name = node.text("HostName"@);
    let dns = node.text("DNSName"@);
    let ip = node.first_text("TailscaleIPs"@);
    if name.len() == 0 {
        None
    } else {
        Some(
            PeerView {
                name,
                addr: if dns.len() == 0 {
                    ip
                } else {
                    without_dots(dns)
                },
                ip,
                os: node.text("OS"@),
                online: is_self || node.flag("Online"@),
                is_self,
            },
        )
    }
}

/// The peer that a node stands for.
pub fn parse_node(node: &Json, is_self: bool) -> (res: Option<Peer>)
    ensures
        match res {
            Some(p) => node_peer(node.tree(), is_self) == Some(p@),
            None => node_peer(node.tree(), is_self) is None,
        },
{
    let name = node.text("HostName");
    if name.as_str().is_empty() {
        return None;
    }
    let dns = node.text("DNSName");
    let ip = node.first_text("TailscaleIPs");
    let addr = if dns.as_str().is_empty() {
        ip.clone()
    } else {
        strip_dots(dns.as_str())
    };
    Some(
        Peer {
            name,
            addr,
            ip,
            os: node.text("OS"),
            // Self has no meaningful Online flag; it's here, so it's on.
            online: is_self || node.flag("Online"),
            is_self,
        },
    )
}

/// The peers among the members of an object.
pub open spec fn member_peers(members: Seq<(Seq<char>, Tree)>) -> Seq<PeerView>
    decreases members.len(),
{
    if members.len() == 0 {
        seq![]
    } else {
        let rest = member_peers(members.drop_last());
        match node_peer(members.last().1, false) {
            Some(p) => rest.push(p),
            None => rest,
        }
    }
}

/// The nodes in a status: this machine, then the others as they are listed.
pub open spec fn status_peers(status: Tree) -> Seq<PeerView> {
    let own = match status.member("Self"@) {
        Some(node) => match node_peer(node, true) {
            Some(p) => seq![p],
            None => seq![],
        },
        None => seq![],
    };
    let others = match status.member("Peer"@) {
        Some(Tree::Object(members)) => member_peers(members),
        _ => seq![],
    };
    own + others
}

/// `ps` is the list `found`, in the order in which the raft shows it.
pub open spec fn raft_order(ps: Seq<PeerView>, found: Seq<PeerView>) -> bool {
    sorted_by(ps, found, |a: PeerView, b: PeerView| a.before(b))
}

/// All nodes of a status, this machine first, then online before offline,
/// alphabetical within each group.
pub fn peers_of(status: &Json) -> (res: Vec<Peer>)
    ensures
        raft_order(peer_views(res@), status_peers(status.tree())),
{
    let mut out: Vec<Peer> = Vec::new();
    if let Some(node) = status.member("Self") {
        if let Some(p) = parse_node(node, true) {
            out.push(p);
        }
    }
    let ghost own = peer_views(out@);
    match status.member("Peer") {
        Some(Json::Object(members)) => {
            let ghost all = Json::Object(*members).tree()->Object_0;
            let mut i: usize = 0;
            proof {
                assert(own + member_peers(all.take(0)) =~= own);
            }
            while i < members.len()
                invariant
                    i <= members@.len(),
                    all == Json::Object(*members).tree()->Object_0,
                    peer_views(out@) == own + member_peers(all.take(i as int)),
                decreases members@.len() - i,
            {
                proof {
                    assert(all.take(i + 1).drop_last() =~= all.take(i as int));
                    assert(all.take(i + 1).last() == (
                        members@[i as int].0@,
                        members@[i as int].1.tree(),
                    ));
                }
                if let Some(p) = parse_node(&members[i].1, false) {
                    proof {
                        assert(peer_views(out@.push(p)) =~= peer_views(out@).push(p@));
                        assert(own + member_peers(all.take(i as int)).push(p@) =~= (own
                            + member_peers(all.take(i as int))).push(p@));
                    }
                    out.push(p);
                }
                i = i + 1;
            }
            assert(all.take(i as int) =~= all);
        },
        _ => {
            assert(own + seq![] =~= own);
        },
    }
    assert(peer_views(out@) =~= status_peers(status.tree()));
    let ghost found = out@;
    let res = sorted(out);
    proof {
        let order = choose|order: Seq<int>| #[trigger]
            arranged(res@, found, order) && in_rank(res@, order, |a: Peer, b: Peer| a.before(b));
        assert(arranged(peer_views(res@), peer_views(found), order));
        assert(in_rank(peer_views(res@), order, |a: PeerView, b: PeerView| a.before(b)));
    }
    res
}

/// All nodes on the tailnet, from what `tailscale status --json` prints.
pub fn peers(status: &[u8]) -> (res: Result<Vec<Peer>, String>)
    ensures
        match document(status@) {
            Ok(tree) => res matches Ok(ps) && raft_order(peer_views(ps@), status_peers(tree)),
            Err(message) => res matches Err(e) && e@ == message,
        },
{
    match parse(status) {
        Ok(json) => Ok(peers_of(&json)),
        Err(e) => Err(e),
    }
}

// ------------------------------------------------------ asking tailscale --

/// How far the search for a `tailscale` that answers has come.
pub enum Ask {
    /// Run this binary next.
    Try(&'static str),
    /// This is what it printed.
    Answer(Vec<u8>),
    /// None answered.
    Failed(String),
}

/// The binaries to try: the one on the path, then the Mac app's bundled one.
pub open spec fn tailscale_bin(attempt: nat) -> Option<Seq<char>> {
    if attempt == 0 {
        Some("tailscale"@)
    } else if attempt == 1 {
        Some("/Applications/Tailscale.app/Contents/MacOS/Tailscale"@)
    } else {
        None
    }
}

/// What to do after `attempt` binaries were run. `outcome` is how the last
/// one went: whether it succeeded, and what it printed; none where it did
/// not run, or none was tried.
pub fn tailscale_output(attempt: usize, outcome: Option<(bool, Vec<u8>)>) -> (res: Ask)
    ensures
        match outcome {
            Some((true, stdout)) => res matches Ask::Answer(bytes) && bytes@ == stdout@,
            _ => match tailscale_bin(attempt as nat) {
                Some(bin) => res matches Ask::Try(next) && next@ == bin,
                None => res matches Ask::Failed(e) && e@
                    == "tailscale not found or not running — is the tailnet up?"@,
            },
        },
{
    if let Some((success, stdout)) = outcome {
        if success {
            return Ask::Answer(stdout);
        }
    }
    if attempt == 0 {
        Ask::Try("tailscale")
    } else if attempt == 1 {
        Ask::Try("/Applications/Tailscale.app/Contents/MacOS/Tailscale")
    } else {
        Ask::Failed("tailscale not found or not running — is the tailnet up?".to_owned())
    }
}

// ----------------------------------------------------------------- fake --

/// The peer that an entry `name=ip[,offline]` stands for.
pub open spec fn fake_peer(entry: Seq<char>) -> Option<PeerView> {
    let parts = split(entry, ',');
    let head = parts[0];
    if head.contains('=') {
        let name = crate::text::before_char(head, '=');
        let ip = crate::text::after_char(head, '=');
        Some(
            PeerView {
                name,
                addr: ip,
                ip,
                os: "linux"@,
                online: !(parts.len() > 1 && parts[1] == "offline"@),
                is_self: false,
            },
        )
    } else {
        None
    }
}

/// The peers that the entries stand for.
pub open spec fn fake_peers(entries: Seq<Seq<char>>) -> Seq<PeerView>
    decreases entries.len(),
{
    if entries.len() == 0 {
        seq![]
    } else {
        let rest = fake_peers(entries.drop_last());
        match fake_peer(entries.last()) {
            Some(p) => rest.push(p),
            None => rest,
        }
    }
}

fn parse_fake_entry(entry: &str) -> (res: Option<Peer>)
    ensures
        match res {
            Some(p) => fake_peer(entry@) == Some(p@),
            None => fake_peer(entry@) is None,
        },
{
    let parts = split_of(entry, ',');
    assert(texts(parts@).len() == parts@.len());
    proof {
        lemma_split_some(entry@, ',');
    }
    assert(texts(parts@)[0] == parts@[0]@);
    match split_once(parts[0].as_str(), '=') {
        None => None,
        Some((name, ip)) => {
            let offline = if parts.len() > 1 {
                assert(texts(parts@)[1] == parts@[1]@);
                same(parts[1].as_str(), "offline")
            } else {
                false
            };
            Some(
                Peer {
                    name,
                    addr: ip.clone(),
                    ip,
                    os: "linux".to_owned(),
                    online: !offline,
                    is_self: false,
                },
            )
        },
    }
}

proof fn lemma_split_some(s: Seq<char>, c: char)
    ensures
        split(s, c).len() > 0,
{
}

/// A made-up tailnet: entries `name=ip[,online]`, `;` between them, and
/// `offline` for a machine that is not there.
pub fn parse_fake(spec_text: &str) -> (res: Vec<Peer>)
    ensures
        peer_views(res@) == fake_peers(split(spec_text@, ';')),
{
    let entries = split_of(spec_text, ';');
    let mut out: Vec<Peer> = Vec::new();
    let mut i: usize = 0;
    assert(peer_views(out@) =~= seq![]);
    while i < entries.len()
        invariant
            i <= entries@.len(),
            peer_views(out@) == fake_peers(texts(entries@).take(i as int)),
        decreases entries@.len() - i,
    {
        proof {
            assert(texts(entries@).take(i + 1).drop_last() =~= texts(entries@).take(i as int));
            assert(texts(entries@).take(i + 1).last() == entries@[i as int]@);
        }
        if let Some(p) = parse_fake_entry(entries[i].as_str()) {
            assert(peer_views(out@.push(p)) =~= peer_views(out@).push(p@));
            out.push(p);
        }
        i = i + 1;
    }
    assert(texts(entries@).take(i as int) =~= texts(entries@));
    out
}

// ------------------------------------------------------------------- QR --

/// The picture of a text as a QR code, or why there is none. A code of which
/// some mask weighs too much to be added up is not drawn.
pub open spec fn qr_of(content: Seq<char>) -> Result<Seq<char>, Seq<char>> {
    if drawable(encode_utf8(content)) {
        qr_picture(encode_utf8(content))
    } else {
        Err("data too uniform"@)
    }
}

/// Render a QR code as half-block unicode text.
pub fn qr_text(content: &str) -> (res: Result<String, String>)
    ensures
        match res {
            Ok(picture) => qr_of(content@) == Ok::<Seq<char>, Seq<char>>(picture@),
            Err(e) => qr_of(content@) == Err::<Seq<char>, Seq<char>>(e@),
        },
{
    let data = content.as_bytes();
    if let Some((width, codes)) = mask_qr(data) {
        if !can_weigh_all(&codes, width) {
            return Err("data too uniform".to_owned());
        }
    }
    draw_qr(data)
}

// ----------------------------------------------------------------- laws --

/// On the raft this machine comes first, machines that are online come before
/// those that are not, and names are in order within each group.
pub proof fn law_raft_order(ps: Seq<PeerView>, found: Seq<PeerView>, i: int, j: int)
    requires
        raft_order(ps, found),
        0 <= i < j < ps.len(),
    ensures
        ps[j].is_self ==> ps[i].is_self,
        ps[i].is_self == ps[j].is_self && ps[j].online ==> ps[i].online,
        ps[i].is_self == ps[j].is_self && ps[i].online == ps[j].online ==> !text_less(
            ps[j].name,
            ps[i].name,
        ),
{
    lemma_text_less(ps[i].name, ps[j].name, ps[j].name);
    assert(!ps[j].before(ps[i]));
}

/// The raft shows every machine that was found, each once.
pub proof fn law_raft_is_complete(ps: Seq<PeerView>, found: Seq<PeerView>)
    requires
        raft_order(ps, found),
    ensures
        ps.len() == found.len(),
        ps.to_multiset() == found.to_multiset(),
{
    let order = choose|order: Seq<int>| #[trigger]
        arranged(ps, found, order) && in_rank(ps, order, |a: PeerView, b: PeerView| a.before(b));
    law_arranging_keeps_items(ps, found, order);
}

/// One list of machines has one order on the raft.
pub proof fn law_raft_order_is_determined(a: Seq<PeerView>, b: Seq<PeerView>, found: Seq<PeerView>)
    requires
        raft_order(a, found),
        raft_order(b, found),
    ensures
        a == b,
{
    let before = |x: PeerView, y: PeerView| x.before(y);
    assert forall|x: PeerView, y: PeerView| #[trigger] before(x, y) implies !before(y, x) by {
        lemma_text_less(x.name, y.name, y.name);
    }
    law_sorting_is_determined(a, b, found, before);
}

} // verus!
