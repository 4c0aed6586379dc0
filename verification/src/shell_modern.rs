//! The commands that packages add to the first level of the context menu: how they are found, which
//! of them are shown, and how one that was chosen is found again.

use vstd::prelude::*;

use crate::guid::{self, guid_eq, Guid};
use crate::text::{self, chars_of, copy_opt, trim};
use crate::text_map::TextMap;
use crate::wide::{self, encode};

verus! {

/// Where the packages of the contract are registered.
pub const CONTRACT_PATH: &'static str =
    "Software\\Classes\\Extensions\\ContractId\\Windows.FileExplorerContextMenus\\PackageId";

/// That a command is not shown.
pub const ECS_HIDDEN: u32 = 2;

/// That a command opens further ones.
pub const ECF_HASSUBCOMMANDS: u32 = 1;

// ----- finding the commands -----

/// The key of the classes of a package.
pub open spec fn package_path(package: Seq<char>) -> Seq<char> {
    CONTRACT_PATH@ + "\\"@ + package + "\\ActivatableClassId"@
}

/// The key of the classes of a package.
pub fn package_key(package: &str) -> (r: String)
    ensures
        r@ == package_path(package@),
{
    let mut s = CONTRACT_PATH.to_owned();
    s.append("\\");
    s.append(package);
    s.append("\\ActivatableClassId");
    s
}

/// The key of the properties of a class of a package, which hold its identifier.
pub fn class_key(package: &str, class: &str) -> (r: String)
    ensures
        r@ == package_path(package@) + "\\"@ + class@ + "\\CustomProperties"@,
{
    let mut s = package_key(package);
    s.append("\\");
    s.append(class);
    s.append("\\CustomProperties");
    s
}

pub open spec fn guid_views(v: Seq<Guid>) -> Seq<guid::GuidView> {
    v.map_values(|g: Guid| g@)
}

/// The identifiers without those that occur before.
pub open spec fn first_ones(v: Seq<guid::GuidView>) -> Seq<guid::GuidView>
    decreases v.len(),
{
    if v.len() == 0 {
        Seq::empty()
    } else {
        let before = first_ones(v.drop_last());
        if before.contains(v.last()) {
            before
        } else {
            before.push(v.last())
        }
    }
}

/// The identifiers of the commands, each once, in the order in which they were found.
pub fn modern_clsids(found: &[Guid]) -> (r: Vec<Guid>)
    ensures
        guid_views(r@) == first_ones(guid_views(found@)),
{
    let ghost all = guid_views(found@);
    let mut out: Vec<Guid> = Vec::new();
    let mut i: usize = 0;
    while i < found.len()
        invariant
            i <= found@.len(),
            all == guid_views(found@),
            guid_views(out@) =~= first_ones(all.take(i as int)),
        decreases found@.len() - i,
    {
        let ghost before = guid_views(out@);
        let mut seen = false;
        let mut j: usize = 0;
        while j < out.len() && !seen
            invariant
                i < found@.len(),
                j <= out@.len(),
                before == guid_views(out@),
                seen ==> before.contains(found@[i as int]@),
                !seen ==> forall|k: int| 0 <= k < j ==> before[k] != found@[i as int]@,
            decreases out@.len() - j,
        {
            assert(before[j as int] == out@[j as int]@);
            seen = guid_eq(&out[j], &found[i]);
            j += 1;
        }
        proof {
            assert(all.take(i + 1).drop_last() =~= all.take(i as int));
            assert(all.take(i + 1).last() == found@[i as int]@);
        }
        if !seen {
            out.push(found[i]);
            assert(guid_views(out@) =~= before.push(found@[i as int]@));
        }
        i += 1;
    }
    assert(all.take(all.len() as int) =~= all);
    out
}

/// Every identifier that was found is kept, and none is kept twice.
pub proof fn law_clsids_are_kept_once(v: Seq<guid::GuidView>)
    ensures
        first_ones(v).no_duplicates(),
        forall|g: guid::GuidView| first_ones(v).contains(g) <==> v.contains(g),
    decreases v.len(),
{
    if v.len() > 0 {
        let d = v.drop_last();
        law_clsids_are_kept_once(d);
        let before = first_ones(d);
        let all = first_ones(v);
        assert forall|g: guid::GuidView| all.contains(g) <==> v.contains(g) by {
            if all.contains(g) {
                let k = choose|k: int| 0 <= k < all.len() && all[k] == g;
                if k < before.len() {
                    assert(before.contains(g));
                    assert(d.contains(g));
                    let j = choose|j: int| 0 <= j < d.len() && d[j] == g;
                    assert(v[j] == g);
                } else {
                    assert(v[v.len() - 1] == g);
                }
            }
            if v.contains(g) {
                let j = choose|j: int| 0 <= j < v.len() && v[j] == g;
                if j < d.len() {
                    assert(d[j] == g);
                    assert(d.contains(g));
                    assert(before.contains(g));
                    let k = choose|k: int| 0 <= k < before.len() && before[k] == g;
                    assert(all[k] == g);
                } else if !before.contains(g) {
                    assert(all[all.len() - 1] == g);
                }
            }
        }
    }
}

// ----- icons -----

/// Whether a text tells where an icon is: indirect resources are not followed.
pub open spec fn is_location(loc: Seq<char>) -> bool {
    loc.len() > 0 && loc[0] != '@'
}

/// The buffer in which the system parses the location of an icon: at least four units, and 260 more.
pub fn location_buffer(loc: &str) -> (r: Vec<u16>)
    ensures
        r@ == wide::utf16(loc@) + Seq::new(
            (if wide::utf16(loc@).len() < 4 {
                264 - wide::utf16(loc@).len()
            } else {
                260
            }) as nat,
            |i: int| 0u16,
        ),
{
    let mut v = encode(loc);
    let ghost head = v@;
    let padding: usize = if v.len() < 4 {
        264 - v.len()
    } else {
        260
    };
    let mut i: usize = 0;
    while i < padding
        invariant
            i <= padding,
            v@ =~= head + Seq::new(i as nat, |i: int| 0u16),
        decreases padding - i,
    {
        v.push(0);
        i += 1;
    }
    v
}

/// The icons that were looked for at their locations, found or not.
pub struct LocationCache {
    icons: TextMap<Option<String>>,
}

impl View for LocationCache {
    type V = Map<Seq<char>, Option<Seq<char>>>;

    closed spec fn view(&self) -> Map<Seq<char>, Option<Seq<char>>> {
        self.icons@.map_values(|o: Option<String>| text::opt_view(o))
    }
}

/// What is known of the icon at a location.
pub enum IconLookup {
    /// It is this one, or there is none.
    Known(Option<String>),
    /// It is to be extracted, and told with `learn`.
    Extract,
}

impl LocationCache {
    /// Nothing was looked for.
    pub fn new() -> (r: Self)
        ensures
            r@ == Map::<Seq<char>, Option<Seq<char>>>::empty(),
    {
        let r = LocationCache { icons: TextMap::new() };
        assert(r@ =~= Map::empty());
        r
    }

    /// What is known of the icon at a location.
    pub fn icon_from_location(&self, loc: &str) -> (r: IconLookup)
        ensures
            match r {
                IconLookup::Known(icon) => if is_location(loc@) {
                    self@.contains_key(loc@) && text::opt_view(icon) == self@[loc@]
                } else {
                    icon is None
                },
                IconLookup::Extract => is_location(loc@) && !self@.contains_key(loc@),
            },
    {
        let v = chars_of(loc);
        if v.len() == 0 || v[0] == '@' {
            return IconLookup::Known(None);
        }
        match self.icons.get(loc) {
            Some(icon) => IconLookup::Known(copy_opt(icon)),
            None => IconLookup::Extract,
        }
    }

    /// Keeps what was found at a location.
    pub fn learn(&mut self, loc: &str, icon: &Option<String>)
        ensures
            final(self)@ == old(self)@.insert(loc@, text::opt_view(*icon)),
    {
        let ghost before = self@;
        let copy = copy_opt(icon);
        self.icons.insert(loc.to_owned(), copy);
        assert(self@ =~= before.insert(loc@, text::opt_view(*icon)));
    }
}

// ----- the tree of commands -----

/// A command of the menu, with the commands that it opens.
pub struct ModernNode {
    pub mid: u32,
    pub label: String,
    pub icon: Option<String>,
    pub children: Vec<ModernNode>,
}

#[verifier::ext_equal]
pub struct ModernView {
    pub mid: int,
    pub label: Seq<char>,
    pub icon: Option<Seq<char>>,
    pub children: Seq<ModernView>,
}

/// The content of a node.
pub open spec fn modern_view(n: ModernNode) -> ModernView
    decreases n,
{
    ModernView {
        mid: n.mid as int,
        label: n.label@,
        icon: text::opt_view(n.icon),
        children: modern_views(n.children@),
    }
}

/// The contents of nodes.
pub open spec fn modern_views(v: Seq<ModernNode>) -> Seq<ModernView>
    decreases v,
{
    Seq::new(
        v.len(),
        |i: int|
            if 0 <= i < v.len() {
                modern_view(v[i])
            } else {
                arbitrary()
            },
    )
}

/// What a command says of itself for the selection: its state, its title, its icon, its flags and
/// the commands that it opens. What it does not tell is missing. `handle` finds it again.
pub struct RawCommand {
    pub handle: u64,
    pub state: Option<u32>,
    pub title: Option<String>,
    pub icon: Option<String>,
    pub flags: Option<u32>,
    pub subs: Option<Vec<RawCommand>>,
}

/// Whether a state hides a command; a state that cannot be told does not.
pub open spec fn hides(state: Option<u32>) -> bool {
    state matches Some(s) && s & ECS_HIDDEN != 0
}

/// Whether a state hides a command; a state that cannot be told does not.
pub fn is_hidden(state: Option<u32>) -> (r: bool)
    ensures
        r == hides(state),
{
    match state {
        Some(s) => s & ECS_HIDDEN != 0,
        None => false,
    }
}

/// Whether a title shows nothing.
pub open spec fn is_blank(title: Option<Seq<char>>) -> bool {
    text::stripped(text::or_empty(title)).len() == 0
}

/// Whether a title shows nothing.
pub fn title_is_blank(title: &Option<String>) -> (r: bool)
    ensures
        r == is_blank(text::opt_view(*title)),
{
    match title {
        Some(t) => trim(t.as_str()).is_empty(),
        None => {
            assert(text::stripped(Seq::empty()) =~= Seq::empty());
            true
        },
    }
}

/// Whether the commands that a command opens are shown: three levels are, at most.
pub open spec fn opens(flags: Option<u32>, depth: nat) -> bool {
    (flags matches Some(f) && f & ECF_HASSUBCOMMANDS != 0) && depth < 2
}

/// Whether the commands that a command opens are shown: three levels are, at most.
pub fn has_subcommands(flags: Option<u32>, depth: u32) -> (r: bool)
    ensures
        r == opens(flags, depth as nat),
{
    match flags {
        Some(f) => f & ECF_HASSUBCOMMANDS != 0 && depth < 2,
        None => false,
    }
}

/// Nodes, the commands behind them by number, and the number of the next node.
#[verifier::ext_equal]
pub struct Built {
    pub nodes: Seq<ModernView>,
    pub store: Seq<(int, u64)>,
    pub next: int,
}

pub open spec fn levels_left(depth: nat) -> int {
    if depth < 2 {
        2 - depth
    } else {
        0
    }
}

/// What a command opens.
pub open spec fn built_below(cmd: RawCommand, depth: nat, next: int) -> Built
    decreases levels_left(depth), 0nat, 0nat,
{
    match cmd.subs {
        Some(subs) => if opens(cmd.flags, depth) {
            built_list(subs@, depth + 1, next)
        } else {
            Built { nodes: Seq::empty(), store: Seq::empty(), next }
        },
        None => Built { nodes: Seq::empty(), store: Seq::empty(), next },
    }
}

/// What is shown of a command: nothing where it is hidden or its title is blank, else a node, which
/// is numbered after all that it opens.
pub open spec fn built(cmd: RawCommand, depth: nat, next: int) -> Built
    decreases levels_left(depth), 0nat, 1nat,
{
    if hides(cmd.state) || is_blank(text::opt_view(cmd.title)) {
        Built { nodes: Seq::empty(), store: Seq::empty(), next }
    } else {
        let below = built_below(cmd, depth, next);
        Built {
            nodes: seq![
                ModernView {
                    mid: below.next,
                    label: text::or_empty(text::opt_view(cmd.title)),
                    icon: text::opt_view(cmd.icon),
                    children: below.nodes,
                },
            ],
            store: below.store.push((below.next, cmd.handle)),
            next: below.next + 1,
        }
    }
}

/// What is shown of commands, in their order.
pub open spec fn built_list(cmds: Seq<RawCommand>, depth: nat, next: int) -> Built
    decreases levels_left(depth), cmds.len() + 1, 0nat,
{
    if cmds.len() == 0 {
        Built { nodes: Seq::empty(), store: Seq::empty(), next }
    } else {
        let before = built_list(cmds.drop_last(), depth, next);
        let last = built(cmds.last(), depth, before.next);
        Built {
            nodes: before.nodes + last.nodes,
            store: before.store + last.store,
            next: last.next,
        }
    }
}

proof fn lemma_built_below(cmd: RawCommand, depth: nat, next: int)
    ensures
        ({
            let b = built_below(cmd, depth, next);
            &&& b.next == next + b.store.len()
            &&& forall|i: int| 0 <= i < b.store.len() ==> (#[trigger] b.store[i]).0 == next + i
        }),
    decreases levels_left(depth), 0nat, 0nat,
{
    if let Some(subs) = cmd.subs {
        if opens(cmd.flags, depth) {
            lemma_built_list(subs@, depth + 1, next);
        }
    }
}

proof fn lemma_built(cmd: RawCommand, depth: nat, next: int)
    ensures
        ({
            let b = built(cmd, depth, next);
            &&& b.next == next + b.store.len()
            &&& forall|i: int| 0 <= i < b.store.len() ==> (#[trigger] b.store[i]).0 == next + i
        }),
    decreases levels_left(depth), 0nat, 1nat,
{
    lemma_built_below(cmd, depth, next);
}

proof fn lemma_built_list(cmds: Seq<RawCommand>, depth: nat, next: int)
    ensures
        ({
            let b = built_list(cmds, depth, next);
            &&& b.next == next + b.store.len()
            &&& forall|i: int| 0 <= i < b.store.len() ==> (#[trigger] b.store[i]).0 == next + i
        }),
    decreases levels_left(depth), cmds.len() + 1, 0nat,
{
    if cmds.len() > 0 {
        lemma_built_list(cmds.drop_last(), depth, next);
        let before = built_list(cmds.drop_last(), depth, next);
        lemma_built(cmds.last(), depth, before.next);
        let last = built(cmds.last(), depth, before.next);
        let b = built_list(cmds, depth, next);
        assert forall|i: int| 0 <= i < b.store.len() implies (#[trigger] b.store[i]).0 == next
            + i by {
            if i >= before.store.len() {
                assert(b.store[i] == last.store[i - before.store.len()]);
            } else {
                assert(b.store[i] == before.store[i]);
            }
        }
    }
}

/// The numbers of a node and of all that it opens, one for each node, the node's own last.
pub open spec fn numbers(n: ModernView) -> Seq<int>
    decreases n,
{
    all_numbers(n.children).push(n.mid)
}

/// The numbers of nodes and of all that they open, one for each node, in their order.
pub open spec fn all_numbers(v: Seq<ModernView>) -> Seq<int>
    decreases v,
{
    if v.len() == 0 {
        Seq::empty()
    } else {
        all_numbers(v.drop_last()) + numbers(v.last())
    }
}

proof fn lemma_numbers_of_one(v: Seq<ModernView>)
    requires
        v.len() == 1,
    ensures
        all_numbers(v) == numbers(v[0]),
{
    reveal_with_fuel(all_numbers, 2);
    assert(v.drop_last() =~= Seq::empty());
    assert(all_numbers(v) =~= numbers(v[0]));
}

proof fn lemma_numbers_below(cmd: RawCommand, depth: nat, next: int)
    ensures
        ({
            let b = built_below(cmd, depth, next);
            all_numbers(b.nodes) == Seq::new(b.store.len(), |i: int| next + i)
        }),
    decreases levels_left(depth), 0nat, 0nat,
{
    let b = built_below(cmd, depth, next);
    if let Some(subs) = cmd.subs {
        if opens(cmd.flags, depth) {
            lemma_numbers_in_list(subs@, depth + 1, next);
        }
    }
    assert(all_numbers(b.nodes) =~= Seq::new(b.store.len(), |i: int| next + i));
}

proof fn lemma_numbers(cmd: RawCommand, depth: nat, next: int)
    ensures
        ({
            let b = built(cmd, depth, next);
            all_numbers(b.nodes) == Seq::new(b.store.len(), |i: int| next + i)
        }),
    decreases levels_left(depth), 0nat, 1nat,
{
    let b = built(cmd, depth, next);
    lemma_numbers_below(cmd, depth, next);
    lemma_built_below(cmd, depth, next);
    if b.nodes.len() > 0 {
        lemma_numbers_of_one(b.nodes);
    }
    assert(all_numbers(b.nodes) =~= Seq::new(b.store.len(), |i: int| next + i));
}

proof fn lemma_numbers_in_list(cmds: Seq<RawCommand>, depth: nat, next: int)
    ensures
        ({
            let b = built_list(cmds, depth, next);
            all_numbers(b.nodes) == Seq::new(b.store.len(), |i: int| next + i)
        }),
    decreases levels_left(depth), cmds.len() + 1, 0nat,
{
    let b = built_list(cmds, depth, next);
    if cmds.len() > 0 {
        let before = built_list(cmds.drop_last(), depth, next);
        let last = built(cmds.last(), depth, before.next);
        lemma_numbers_in_list(cmds.drop_last(), depth, next);
        lemma_built_list(cmds.drop_last(), depth, next);
        lemma_numbers(cmds.last(), depth, before.next);
        if last.nodes.len() == 0 {
            assert(b.nodes =~= before.nodes);
        } else {
            assert(b.nodes.drop_last() =~= before.nodes);
            lemma_numbers_of_one(last.nodes);
            assert(b.nodes.last() == last.nodes[0]);
        }
    }
    assert(all_numbers(b.nodes) =~= Seq::new(b.store.len(), |i: int| next + i));
}

/// A command that is shown is one node with a title that is not blank. A tree of some number of
/// nodes has exactly the next numbers, as many as nodes, each once; the store grows by one entry
/// for each of them in that order, and the root has the last of them.
pub proof fn law_tree_has_next_numbers(cmd: RawCommand, depth: nat, next: int)
    ensures
        ({
            let b = built(cmd, depth, next);
            &&& b.nodes.len() <= 1
            &&& b.nodes.len() == 0 ==> b.store.len() == 0 && b.next == next
            &&& b.nodes.len() == 1 ==> {
                let node = b.nodes[0];
                let count = numbers(node).len();
                &&& numbers(node) == Seq::new(count, |i: int| next + i)
                &&& numbers(node).no_duplicates()
                &&& b.store.len() == count
                &&& forall|i: int| 0 <= i < count ==> (#[trigger] b.store[i]).0 == next + i
                &&& b.next == next + count
                &&& node.mid == next + count - 1
                &&& text::stripped(node.label).len() > 0
            }
        }),
{
    let b = built(cmd, depth, next);
    lemma_numbers(cmd, depth, next);
    lemma_built(cmd, depth, next);
    if b.nodes.len() > 0 {
        lemma_numbers_of_one(b.nodes);
        assert(numbers(b.nodes[0]).last() == b.nodes[0].mid);
    }
}

/// The nodes of a whole menu have the numbers from 1 to as many as there are nodes, each once, and
/// the store has one entry for each of them in that order.
pub proof fn law_menu_has_first_numbers(cmds: Seq<RawCommand>)
    ensures
        ({
            let b = built_list(cmds, 0, 1);
            let count = all_numbers(b.nodes).len();
            &&& all_numbers(b.nodes) == Seq::new(count, |i: int| 1 + i)
            &&& b.store.len() == count
            &&& forall|i: int| 0 <= i < count ==> (#[trigger] b.store[i]).0 == 1 + i
        }),
{
    lemma_numbers_in_list(cmds, 0, 1);
    lemma_built_list(cmds, 0, 1);
}

pub open spec fn store_views(v: Seq<(u32, u64)>) -> Seq<(int, u64)> {
    v.map_values(|e: (u32, u64)| (e.0 as int, e.1))
}

proof fn lemma_list_grows(cmds: Seq<RawCommand>, depth: nat, next: int, k: int)
    requires
        0 <= k <= cmds.len(),
    ensures
        built_list(cmds.take(k), depth, next).next <= built_list(cmds, depth, next).next,
    decreases cmds.len() - k,
{
    if k < cmds.len() {
        lemma_list_grows(cmds, depth, next, k + 1);
        assert(cmds.take(k + 1).drop_last() =~= cmds.take(k));
        lemma_built(cmds[k], depth, built_list(cmds.take(k), depth, next).next);
    } else {
        assert(cmds.take(k) =~= cmds);
    }
}

/// What is shown of a command: the node goes to `out`, the commands behind it and all that it opens
/// go to `store`, and `next_id` moves past their numbers.
pub fn build_node(
    cmd: &RawCommand,
    store: &mut Vec<(u32, u64)>,
    next_id: &mut u32,
    depth: u32,
    out: &mut Vec<ModernNode>,
)
    requires
        built(*cmd, depth as nat, *old(next_id) as int).next <= u32::MAX,
    ensures
        ({
            let b = built(*cmd, depth as nat, *old(next_id) as int);
            &&& modern_views(final(out)@) == modern_views(old(out)@) + b.nodes
            &&& store_views(final(store)@) == store_views(old(store)@) + b.store
            &&& *final(next_id) == b.next
        }),
    decreases levels_left(depth as nat), 0nat,
{
    let ghost b = built(*cmd, depth as nat, *next_id as int);
    let ghost out0 = out@;
    let ghost store0 = store@;
    if is_hidden(cmd.state) || title_is_blank(&cmd.title) {
        assert(modern_views(out@) =~= modern_views(out0) + b.nodes);
        assert(store_views(store@) =~= store_views(store0) + b.store);
        return;
    }
    let mut children: Vec<ModernNode> = Vec::new();
    let ghost below = built_below(*cmd, depth as nat, *next_id as int);
    assert(modern_views(children@) =~= Seq::empty());
    assert(store_views(store0) =~= store_views(store0) + Seq::<(int, u64)>::empty());
    if let Some(subs) = &cmd.subs {
        if has_subcommands(cmd.flags, depth) {
            enum_sub(subs, store, next_id, depth + 1, &mut children);
            assert(modern_views(children@) =~= below.nodes);
        }
    }
    let ghost store1 = store@;
    assert(store_views(store1) =~= store_views(store0) + below.store);
    let mid: u32 = *next_id;
    *next_id = *next_id + 1;
    store.push((mid, cmd.handle));
    let label = match &cmd.title {
        Some(t) => t.clone(),
        None => String::new(),
    };
    let node = ModernNode { mid, label, icon: copy_opt(&cmd.icon), children };
    assert(modern_view(node) =~= b.nodes[0]);
    out.push(node);
    proof {
        assert(modern_views(out@) =~= modern_views(out0) + b.nodes);
        assert(store_views(store@) =~= store_views(store1).push((mid as int, cmd.handle)));
        assert(store_views(store@) =~= store_views(store0) + b.store);
    }
}

/// What is shown of the commands that a command opens, in their order.
pub fn enum_sub(
    cmds: &Vec<RawCommand>,
    store: &mut Vec<(u32, u64)>,
    next_id: &mut u32,
    depth: u32,
    out: &mut Vec<ModernNode>,
)
    requires
        built_list(cmds@, depth as nat, *old(next_id) as int).next <= u32::MAX,
    ensures
        ({
            let b = built_list(cmds@, depth as nat, *old(next_id) as int);
            &&& modern_views(final(out)@) == modern_views(old(out)@) + b.nodes
            &&& store_views(final(store)@) == store_views(old(store)@) + b.store
            &&& *final(next_id) == b.next
        }),
    decreases levels_left(depth as nat), 1nat,
{
    let ghost first = *next_id as int;
    let ghost out0 = out@;
    let ghost store0 = store@;
    let mut i: usize = 0;
    proof {
        let b = built_list(cmds@.take(0), depth as nat, first);
        assert(modern_views(out@) =~= modern_views(out0) + b.nodes);
        assert(store_views(store@) =~= store_views(store0) + b.store);
    }
    while i < cmds.len()
        invariant
            i <= cmds@.len(),
            built_list(cmds@, depth as nat, first).next <= u32::MAX,
            ({
                let b = built_list(cmds@.take(i as int), depth as nat, first);
                &&& modern_views(out@) == modern_views(out0) + b.nodes
                &&& store_views(store@) == store_views(store0) + b.store
                &&& *next_id == b.next
            }),
        decreases cmds@.len() - i,
    {
        proof {
            lemma_list_grows(cmds@, depth as nat, first, i + 1);
            assert(cmds@.take(i + 1).drop_last() =~= cmds@.take(i as int));
            assert(cmds@.take(i + 1).last() == cmds@[i as int]);
        }
        let ghost before = built_list(cmds@.take(i as int), depth as nat, first);
        let ghost after = built_list(cmds@.take(i + 1), depth as nat, first);
        build_node(&cmds[i], store, next_id, depth, out);
        assert(modern_views(out@) =~= modern_views(out0) + after.nodes);
        assert(store_views(store@) =~= store_views(store0) + after.store);
        i += 1;
    }
    assert(cmds@.take(cmds@.len() as int) =~= cmds@);
}

// ----- a menu that waits for a choice -----

/// The commands of the menu that waits for a choice, by number, if one waits.
pub struct PendingModern {
    pub store: Option<Vec<(u32, u64)>>,
}

/// Gives up the menu that waits.
pub fn clear(pending: &mut PendingModern)
    ensures
        final(pending).store is None,
{
    pending.store = None;
}

/// The nodes of the commands, which wait for a choice from now on.
pub fn get_modern_menu(pending: &mut PendingModern, cmds: &Vec<RawCommand>) -> (r: Vec<ModernNode>)
    requires
        built_list(cmds@, 0, 1).next <= u32::MAX,
    ensures
        modern_views(r@) == built_list(cmds@, 0, 1).nodes,
        final(pending).store matches Some(store) && store_views(store@) == built_list(
            cmds@,
            0,
            1,
        ).store,
{
    let mut out: Vec<ModernNode> = Vec::new();
    let mut store: Vec<(u32, u64)> = Vec::new();
    let mut next_id: u32 = 1;
    let ghost b = built_list(cmds@, 0, 1);
    assert(modern_views(out@) =~= Seq::empty());
    assert(store_views(store@) =~= Seq::empty());
    enum_sub(cmds, &mut store, &mut next_id, 0, &mut out);
    assert(modern_views(out@) =~= b.nodes);
    assert(store_views(store@) =~= b.store);
    pending.store = Some(store);
    out
}

/// The command of the first entry with a number.
pub open spec fn command_with(store: Seq<(int, u64)>, mid: int) -> Option<u64>
    decreases store.len(),
{
    if store.len() == 0 {
        None
    } else if store[0].0 == mid {
        Some(store[0].1)
    } else {
        command_with(store.drop_first(), mid)
    }
}

/// The command that was chosen, by its handle; none where no menu waits or it has no such command.
/// The menu waits no longer.
pub fn invoke_modern(pending: &mut PendingModern, mid: u32) -> (r: Option<u64>)
    ensures
        r == (match old(pending).store {
            Some(store) => command_with(store_views(store@), mid as int),
            None => None,
        }),
        final(pending).store is None,
{
    let store = match pending.store.take() {
        Some(store) => store,
        None => return None,
    };
    let ghost all = store_views(store@);
    let mut i: usize = 0;
    assert(all.skip(0) =~= all);
    while i < store.len()
        invariant
            i <= store@.len(),
            all == store_views(store@),
            command_with(all, mid as int) == command_with(all.skip(i as int), mid as int),
            old(pending).store == Some(store),
            pending.store is None,
        decreases store@.len() - i,
    {
        assert(all.skip(i as int)[0] == (store@[i as int].0 as int, store@[i as int].1));
        if store[i].0 == mid {
            return Some(store[i].1);
        }
        assert(all.skip(i as int).drop_first() =~= all.skip(i + 1));
        i += 1;
    }
    None
}

proof fn lemma_command_at(store: Seq<(int, u64)>, first: int, k: int)
    requires
        forall|i: int| 0 <= i < store.len() ==> (#[trigger] store[i]).0 == first + i,
        0 <= k < store.len(),
    ensures
        command_with(store, first + k) == Some(store[k].1),
    decreases store.len(),
{
    assert(store[0].0 == first + 0);
    if k > 0 {
        let d = store.drop_first();
        assert forall|i: int| 0 <= i < d.len() implies (#[trigger] d[i]).0 == first + 1 + i by {
            assert(d[i] == store[i + 1]);
        }
        lemma_command_at(d, first + 1, k - 1);
        assert(d[k - 1] == store[k]);
    }
}

/// The nodes are numbered from 1 without gaps, and each number leads to one command: choosing the
/// k-th number gives the k-th command of the store.
pub proof fn law_numbers_lead_to_commands(cmds: Seq<RawCommand>, k: int)
    requires
        0 <= k < built_list(cmds, 0, 1).store.len(),
    ensures
        built_list(cmds, 0, 1).store[k].0 == k + 1,
        command_with(built_list(cmds, 0, 1).store, k + 1) == Some(
            built_list(cmds, 0, 1).store[k].1,
        ),
{
    lemma_built_list(cmds, 0, 1);
    lemma_command_at(built_list(cmds, 0, 1).store, 1, k);
}

/// A number that no node has leads to no command.
pub proof fn law_other_numbers_lead_nowhere(cmds: Seq<RawCommand>, mid: int)
    requires
        mid < 1 || mid > built_list(cmds, 0, 1).store.len(),
    ensures
        command_with(built_list(cmds, 0, 1).store, mid) is None,
{
    lemma_built_list(cmds, 0, 1);
    lemma_no_command(built_list(cmds, 0, 1).store, 1, mid);
}

proof fn lemma_no_command(store: Seq<(int, u64)>, first: int, mid: int)
    requires
        forall|i: int| 0 <= i < store.len() ==> (#[trigger] store[i]).0 == first + i,
        mid < first || mid >= first + store.len(),
    ensures
        command_with(store, mid) is None,
    decreases store.len(),
{
    if store.len() > 0 {
        assert(store[0].0 == first + 0);
        let d = store.drop_first();
        assert forall|i: int| 0 <= i < d.len() implies (#[trigger] d[i]).0 == first + 1 + i by {
            assert(d[i] == store[i + 1]);
        }
        lemma_no_command(d, first + 1, mid);
    }
}

/// The node of a command that is shown leads back to that command.
pub proof fn law_node_leads_to_its_command(cmd: RawCommand, depth: nat, next: int)
    requires
        !hides(cmd.state),
        !is_blank(text::opt_view(cmd.title)),
    ensures
        ({
            let b = built(cmd, depth, next);
            &&& b.nodes.len() == 1
            &&& command_with(b.store, b.nodes[0].mid) == Some(cmd.handle)
        }),
{
    lemma_built_below(cmd, depth, next);
    lemma_built(cmd, depth, next);
    let b = built(cmd, depth, next);
    lemma_command_at(b.store, next, b.store.len() - 1);
}

/// Of a command that is hidden or has a blank title nothing is shown and nothing is stored.
pub proof fn law_hidden_commands_leave_no_trace(cmd: RawCommand, depth: nat, next: int)
    requires
        hides(cmd.state) || is_blank(text::opt_view(cmd.title)),
    ensures
        built(cmd, depth, next) == (Built { nodes: Seq::empty(), store: Seq::empty(), next }),
{
}

/// The classes of a package stand below the extensions for Explorer's menus.
pub proof fn law_package_path(package: Seq<char>)
    ensures
        package_path(package)
            == "Software\\Classes\\Extensions\\ContractId\\Windows.FileExplorerContextMenus\\PackageId"@
            + "\\"@ + package + "\\ActivatableClassId"@,
{
}

/// Of classes that come more than once the first is kept, and the order stays.
pub proof fn law_first_ones(v: Seq<guid::GuidView>, g: guid::GuidView)
    ensures
        first_ones(Seq::empty()).len() == 0,
        v.contains(g) ==> first_ones(v.push(g)) == first_ones(v),
        !v.contains(g) ==> first_ones(v.push(g)) == first_ones(v).push(g),
{
    assert(v.push(g).drop_last() =~= v);
    lemma_first_ones_hold(v, g);
}

proof fn lemma_first_ones_hold(v: Seq<guid::GuidView>, g: guid::GuidView)
    ensures
        first_ones(v).contains(g) <==> v.contains(g),
    decreases v.len(),
{
    if v.len() > 0 {
        let rest = v.drop_last();
        let before = first_ones(rest);
        lemma_first_ones_hold(rest, g);
        lemma_first_ones_hold(rest, v.last());
        if v.contains(g) && g != v.last() {
            let i = choose|i: int| 0 <= i < v.len() && v[i] == g;
            assert(rest[i] == g);
        }
        if rest.contains(g) {
            let i = choose|i: int| 0 <= i < rest.len() && rest[i] == g;
            assert(v[i] == g);
        }
        assert(v[v.len() - 1] == v.last());
        if !before.contains(v.last()) {
            let now = before.push(v.last());
            assert(now[before.len() as int] == v.last());
            if before.contains(g) {
                let i = choose|i: int| 0 <= i < before.len() && before[i] == g;
                assert(now[i] == g);
            }
            if now.contains(g) && g != v.last() {
                let i = choose|i: int| 0 <= i < now.len() && now[i] == g;
                assert(before[i] == g);
            }
        }
    }
}

/// An icon has a location unless it is empty or names a resource.
pub proof fn law_locations(loc: Seq<char>)
    ensures
        is_location(loc) <==> loc.len() > 0 && loc[0] != '@',
{
}

/// A command is left out where the second bit of its state hides it or it has no title but white
/// space; otherwise it is one entry, with its title and icon as they are.
pub proof fn law_command_entry(cmd: RawCommand, depth: nat, next: int)
    ensures
        ({
            let b = built(cmd, depth, next);
            let hidden = cmd.state matches Some(s) && s & 2 != 0;
            let blank = cmd.title is None || text::stripped(cmd.title->0@).len() == 0;
            &&& hidden || blank ==> b.nodes.len() == 0 && b.store.len() == 0 && b.next == next
            &&& !hidden && !blank ==> {
                &&& b.nodes.len() == 1
                &&& b.nodes[0].label == cmd.title->0@
                &&& b.nodes[0].icon is Some <==> cmd.icon is Some
                &&& cmd.icon matches Some(i) ==> b.nodes[0].icon == Some(i@)
                &&& b.nodes[0].mid == b.next - 1
                &&& b.store.last() == (b.next - 1, cmd.handle)
            }
        }),
{
    text::law_stripped(Seq::empty(), Seq::empty(), Seq::empty());
    assert(Seq::<char>::empty() + Seq::<char>::empty() + Seq::<char>::empty() =~= Seq::<
        char,
    >::empty());
}

/// A command opens what is below it where the first bit of its flags says so, on the first two
/// levels only; the numbers below it come before its own.
pub proof fn law_commands_below(cmd: RawCommand, depth: nat, next: int)
    ensures
        ({
            let b = built_below(cmd, depth, next);
            let opened = cmd.flags matches Some(f) && f & 1 != 0;
            &&& opened && depth < 2 && cmd.subs is Some ==> b == built_list(
                cmd.subs->0@,
                depth + 1,
                next,
            )
            &&& !opened || depth >= 2 || cmd.subs is None ==> b.nodes.len() == 0 && b.store.len()
                == 0 && b.next == next
        }),
        !hides(cmd.state) && !is_blank(text::opt_view(cmd.title)) ==> {
            let b = built(cmd, depth, next);
            let below = built_below(cmd, depth, next);
            &&& b.nodes[0].children == below.nodes
            &&& b.store.drop_last() == below.store
            &&& b.next == below.next + 1
        },
{
}

/// Commands are listed in their order, and numbered on from one another.
pub proof fn law_commands_keep_order(
    cmds: Seq<RawCommand>,
    cmd: RawCommand,
    depth: nat,
    next: int,
)
    ensures
        ({
            let before = built_list(cmds, depth, next);
            let last = built(cmd, depth, before.next);
            let all = built_list(cmds.push(cmd), depth, next);
            &&& all.nodes == before.nodes + last.nodes
            &&& all.store == before.store + last.store
            &&& all.next == last.next
        }),
        built_list(Seq::empty(), depth, next).nodes.len() == 0,
        built_list(Seq::empty(), depth, next).next == next,
{
    assert(cmds.push(cmd).drop_last() =~= cmds);
}

/// A number leads to the first command that was stored under it.
pub proof fn law_command_with(
    before: Seq<(int, u64)>,
    mid: int,
    handle: u64,
    behind: Seq<(int, u64)>,
)
    requires
        forall|i: int| 0 <= i < before.len() ==> (#[trigger] before[i]).0 != mid,
    ensures
        command_with(before + seq![(mid, handle)] + behind, mid) == Some(handle),
        command_with(before, mid) is None,
    decreases before.len(),
{
    let all = before + seq![(mid, handle)] + behind;
    if before.len() > 0 {
        assert(all[0] == before[0]);
        assert(all.drop_first() =~= before.drop_first() + seq![(mid, handle)] + behind);
        assert forall|i: int| 0 <= i < before.drop_first().len() implies (
        #[trigger] before.drop_first()[i]).0 != mid by {
            assert(before.drop_first()[i] == before[i + 1]);
        }
        law_command_with(before.drop_first(), mid, handle, behind);
    } else {
        assert(all[0] == (mid, handle));
    }
}

} // verus!
