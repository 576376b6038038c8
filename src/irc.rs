//! Parsing of one chat protocol line: the tag segment, the prefix, the verb,
//! the positional arguments and the trailing payload.
use vstd::prelude::*;
use crate::text::{
    chars_of, end_of_token, find_before, lemma_find_before_at, find_char, lemma_find_before_range,
    lemma_skip_ws_range, lemma_token_end_range, skip_whitespace, skip_ws, str_eq, substring, token_end,
};

verus! {

/// The map described by a list of entries, a later entry replacing an earlier one
/// with the same key.
pub open spec fn entries_map(e: Seq<(String, String)>) -> Map<Seq<char>, Seq<char>>
    decreases e.len(),
{
    if e.len() == 0 {
        Map::empty()
    } else {
        entries_map(e.drop_last()).insert(e.last().0@, e.last().1@)
    }
}

/// The tags of the `;`-separated `key=value` segments of `s` from position `i` on;
/// a segment without `=` is skipped and a later key replaces an earlier one.
pub open spec fn tags_from(s: Seq<char>, i: int) -> Map<Seq<char>, Seq<char>>
    decreases s.len() + 1 - i,
{
    if i >= s.len() {
        Map::empty()
    } else {
        let j = find_before(s, ';', i, s.len() as int);
        let e = find_before(s, '=', i, j);
        let here = if e < j {
            map![s.subrange(i, e) => s.subrange(e + 1, j)]
        } else {
            Map::empty()
        };
        proof {
            lemma_find_before_range(s, ';', i, s.len() as int);
        }
        here.union_prefer_right(tags_from(s, j + 1))
    }
}

/// The tags of a tag segment `@k=v;k=v`: the first character is the marker.
pub open spec fn tags_of(s: Seq<char>) -> Map<Seq<char>, Seq<char>> {
    tags_from(s, 1)
}

/// The tags of a message: a mapping from tag name to value.
#[derive(Default, Debug, PartialEq, Clone)]
pub struct Tags {
    entries: Vec<(String, String)>,
}

impl View for Tags {
    type V = Map<Seq<char>, Seq<char>>;

    closed spec fn view(&self) -> Map<Seq<char>, Seq<char>> {
        entries_map(self.entries@)
    }
}

/// Merging maps, the later winning, is associative.
proof fn lemma_union_assoc(a: Map<Seq<char>, Seq<char>>, b: Map<Seq<char>, Seq<char>>, c: Map<Seq<char>, Seq<char>>)
    ensures
        a.union_prefer_right(b.union_prefer_right(c)) == a.union_prefer_right(b).union_prefer_right(c),
{
    assert(a.union_prefer_right(b.union_prefer_right(c)) =~= a.union_prefer_right(b).union_prefer_right(c));
}

/// Whether a text can stand as a tag name: it holds neither `;` nor `=`.
pub open spec fn valid_key(k: Seq<char>) -> bool {
    !k.contains(';') && !k.contains('=')
}

/// Whether a text can stand as a tag value: it holds no `;`.
pub open spec fn valid_value(v: Seq<char>) -> bool {
    !v.contains(';')
}

/// Parsing a tag segment `@k1=v1;k2=v2` gives `v1` under `k1` and `v2` under
/// `k2` (the later one when the names are equal), and nothing under any other name.
pub proof fn lemma_two_tags(k1: Seq<char>, v1: Seq<char>, k2: Seq<char>, v2: Seq<char>)
    requires
        valid_key(k1),
        valid_key(k2),
        valid_value(v1),
        valid_value(v2),
    ensures
        ({
            let t = tags_of(seq!['@'] + k1 + seq!['='] + v1 + seq![';'] + k2 + seq!['='] + v2);
            &&& t.contains_key(k2) && t[k2] == v2
            &&& k1 != k2 ==> t.contains_key(k1) && t[k1] == v1
            &&& forall|k: Seq<char>| k != k1 && k != k2 ==> !t.contains_key(k)
        }),
{
    let s = seq!['@'] + k1 + seq!['='] + v1 + seq![';'] + k2 + seq!['='] + v2;
    let n = s.len() as int;
    let e1: int = 1 + k1.len() as int;
    let j1: int = e1 + 1 + v1.len() as int;
    let e2: int = j1 + 1 + k2.len() as int;
    assert(s.subrange(1, e1) =~= k1);
    assert(s.subrange(e1 + 1, j1) =~= v1);
    assert(s.subrange(j1 + 1, e2) =~= k2);
    assert(s.subrange(e2 + 1, n) =~= v2);
    assert forall|q: int| 1 <= q < j1 implies s[q] != ';' by {
        if q < e1 {
            assert(s[q] == k1[q - 1]);
        } else if q > e1 {
            assert(s[q] == v1[q - e1 - 1]);
        }
    }
    assert forall|q: int| 1 <= q < e1 implies s[q] != '=' by {
        assert(s[q] == k1[q - 1]);
    }
    assert forall|q: int| j1 + 1 <= q < n implies s[q] != ';' by {
        if q < e2 {
            assert(s[q] == k2[q - j1 - 1]);
        } else if q > e2 {
            assert(s[q] == v2[q - e2 - 1]);
        }
    }
    assert forall|q: int| j1 + 1 <= q < e2 implies s[q] != '=' by {
        assert(s[q] == k2[q - j1 - 1]);
    }
    lemma_find_before_at(s, ';', 1, j1, n);
    lemma_find_before_at(s, '=', 1, e1, j1);
    lemma_find_before_at(s, ';', j1 + 1, n, n);
    lemma_find_before_at(s, '=', j1 + 1, e2, n);
    assert(tags_from(s, n + 1) =~= Map::<Seq<char>, Seq<char>>::empty());
    assert(tags_from(s, j1 + 1) == map![k2 => v2].union_prefer_right(tags_from(s, n + 1)));
    assert(tags_from(s, 1) == map![k1 => v1].union_prefer_right(tags_from(s, j1 + 1)));
    let t = tags_of(s);
    assert(t =~= map![k1 => v1].union_prefer_right(map![k2 => v2].union_prefer_right(Map::empty())));
}

/// The text of one tag: `key=value`.
pub open spec fn tag_text(e: (Seq<char>, Seq<char>)) -> Seq<char> {
    e.0 + seq!['='] + e.1
}

/// The tags joined with `;`.
pub open spec fn tags_text(es: Seq<(Seq<char>, Seq<char>)>) -> Seq<char>
    decreases es.len(),
{
    if es.len() == 0 {
        seq![]
    } else if es.len() == 1 {
        tag_text(es[0])
    } else {
        tag_text(es[0]) + seq![';'] + tags_text(es.drop_first())
    }
}

/// The map of a list of tags, a later name replacing an earlier one.
pub open spec fn tags_map(es: Seq<(Seq<char>, Seq<char>)>) -> Map<Seq<char>, Seq<char>>
    decreases es.len(),
{
    if es.len() == 0 {
        Map::empty()
    } else {
        map![es[0].0 => es[0].1].union_prefer_right(tags_map(es.drop_first()))
    }
}

/// Whether every tag has a valid name and value.
pub open spec fn valid_tags(es: Seq<(Seq<char>, Seq<char>)>) -> bool {
    forall|i: int| 0 <= i < es.len() ==> valid_key(#[trigger] es[i].0) && valid_value(es[i].1)
}

proof fn lemma_tags_text(p: Seq<char>, es: Seq<(Seq<char>, Seq<char>)>)
    requires
        valid_tags(es),
    ensures
        tags_from(p + tags_text(es), p.len() as int) == tags_map(es),
    decreases es.len(),
{
    let s = p + tags_text(es);
    let i = p.len() as int;
    if es.len() == 0 {
        assert(s =~= p);
        assert(tags_from(s, i) =~= tags_map(es));
    } else {
        let (k0, v0) = es[0];
        assert(valid_key(es[0].0) && valid_value(es[0].1));
        let n = s.len() as int;
        let e1: int = i + k0.len() as int;
        let j1: int = e1 + 1 + v0.len() as int;
        let rest = es.drop_first();
        assert(tags_text(es) =~= if es.len() == 1 { tag_text(es[0]) } else { tag_text(es[0]) + seq![';'] + tags_text(rest) });
        assert forall|q: int| i <= q < e1 implies s[q] == k0[q - i] by {}
        assert forall|q: int| e1 < q < j1 implies s[q] == v0[q - e1 - 1] by {}
        assert(s[e1] == '=');
        assert(s.subrange(i, e1) =~= k0);
        assert(s.subrange(e1 + 1, j1) =~= v0);
        assert forall|q: int| i <= q < j1 implies s[q] != ';' by {
            if q < e1 {
                assert(!k0.contains(';'));
                assert(s[q] == k0[q - i]);
            } else if q > e1 {
                assert(!v0.contains(';'));
                assert(s[q] == v0[q - e1 - 1]);
            }
        }
        assert forall|q: int| i <= q < e1 implies s[q] != '=' by {
            assert(!k0.contains('='));
            assert(s[q] == k0[q - i]);
        }
        lemma_find_before_at(s, '=', i, e1, j1);
        if es.len() == 1 {
            assert(n == j1);
            lemma_find_before_at(s, ';', i, j1, n);
            assert(tags_from(s, n + 1) =~= Map::<Seq<char>, Seq<char>>::empty());
            assert(tags_map(rest) =~= Map::<Seq<char>, Seq<char>>::empty());
            assert(tags_from(s, i) == map![k0 => v0].union_prefer_right(tags_from(s, j1 + 1)));
        } else {
            assert(s[j1] == ';');
            lemma_find_before_at(s, ';', i, j1, n);
            let p2 = p + tag_text(es[0]) + seq![';'];
            assert(s =~= p2 + tags_text(rest));
            assert(p2.len() == j1 + 1);
            assert forall|q: int| 0 <= q < rest.len() implies valid_key(#[trigger] rest[q].0) && valid_value(rest[q].1) by {
                assert(rest[q] == es[q + 1]);
            }
            lemma_tags_text(p2, rest);
            assert(tags_from(s, i) == map![k0 => v0].union_prefer_right(tags_from(s, j1 + 1)));
        }
    }
}

proof fn lemma_tags_map(es: Seq<(Seq<char>, Seq<char>)>)
    requires
        forall|a: int, b: int| 0 <= a < b < es.len() ==> es[a].0 != es[b].0,
    ensures
        forall|i: int| 0 <= i < es.len() ==> #[trigger] tags_map(es).contains_key(es[i].0)
            && tags_map(es)[es[i].0] == es[i].1,
        forall|k: Seq<char>| tags_map(es).contains_key(k) ==> exists|i: int| 0 <= i < es.len() && #[trigger] es[i].0 == k,
    decreases es.len(),
{
    if es.len() > 0 {
        let rest = es.drop_first();
        assert forall|a: int, b: int| 0 <= a < b < rest.len() implies rest[a].0 != rest[b].0 by {
            assert(rest[a] == es[a + 1] && rest[b] == es[b + 1]);
        }
        lemma_tags_map(rest);
        assert(tags_map(es) == map![es[0].0 => es[0].1].union_prefer_right(tags_map(rest)));
        assert forall|i: int| 0 <= i < es.len() implies #[trigger] tags_map(es).contains_key(es[i].0)
            && tags_map(es)[es[i].0] == es[i].1 by {
            if i > 0 {
                assert(rest[i - 1] == es[i]);
                assert(tags_map(rest).contains_key(rest[i - 1].0));
            } else {
                if tags_map(rest).contains_key(es[0].0) {
                    let q = choose|q: int| 0 <= q < rest.len() && #[trigger] rest[q].0 == es[0].0;
                    assert(rest[q] == es[q + 1]);
                    assert(false);
                }
            }
        }
        assert forall|k: Seq<char>| tags_map(es).contains_key(k) implies exists|i: int| 0 <= i < es.len() && #[trigger] es[i].0 == k by {
            if k != es[0].0 {
                let q = choose|q: int| 0 <= q < rest.len() && #[trigger] rest[q].0 == k;
                assert(rest[q] == es[q + 1]);
                assert(es[q + 1].0 == k);
            }
        }
    }
}

/// Parsing a tag segment `@k1=v1;...;kn=vn` whose names are distinct gives each
/// value under its name and nothing under any other name.
pub proof fn lemma_tags_lookup(es: Seq<(Seq<char>, Seq<char>)>)
    requires
        valid_tags(es),
        forall|a: int, b: int| 0 <= a < b < es.len() ==> es[a].0 != es[b].0,
    ensures
        ({
            let t = tags_of(seq!['@'] + tags_text(es));
            &&& forall|i: int| 0 <= i < es.len() ==> #[trigger] t.contains_key(es[i].0) && t[es[i].0] == es[i].1
            &&& forall|k: Seq<char>| t.contains_key(k) ==> exists|i: int| 0 <= i < es.len() && #[trigger] es[i].0 == k
        }),
{
    lemma_tags_text(seq!['@'], es);
    lemma_tags_map(es);
    assert(seq!['@'].len() == 1);
    assert(tags_of(seq!['@'] + tags_text(es)) == tags_map(es));
}

impl Tags {
    /// The tags with no entry.
    pub fn empty() -> (r: Tags)
        ensures
            r@ == Map::<Seq<char>, Seq<char>>::empty(),
    {
        Tags { entries: Vec::new() }
    }

    /// Parses a tag segment `@key=value;key=value`; the first character is the
    /// marker and is not read.
    pub fn parse(input: &str) -> (r: Tags)
        ensures
            r@ == tags_of(input@),
    {
        let s = chars_of(input);
        let n = s.len();
        let mut entries: Vec<(String, String)> = Vec::new();
        let mut i: usize = 1;
        assert(entries_map(entries@) =~= Map::<Seq<char>, Seq<char>>::empty());
        assert(Map::<Seq<char>, Seq<char>>::empty().union_prefer_right(tags_from(s@, 1)) =~= tags_from(s@, 1));
        while i < n
            invariant
                n == s@.len(),
                s@ == input@,
                1 <= i,
                i <= n || n == 0,
                tags_of(input@) == entries_map(entries@).union_prefer_right(tags_from(s@, i as int)),
            decreases n - i,
        {
            let j = find_char(&s, ';', i, n);
            let e = find_char(&s, '=', i, j);
            proof {
                lemma_find_before_range(s@, '=', i as int, j as int);
            }
            let ghost here = if e < j {
                map![s@.subrange(i as int, e as int) => s@.subrange(e + 1, j as int)]
            } else {
                Map::empty()
            };
            let ghost old_map = entries_map(entries@);
            let ghost old_entries = entries@;
            if e < j {
                let k = substring(input, i, e);
                let v = substring(input, e + 1, j);
                entries.push((k, v));
                assert(entries@.drop_last() =~= old_entries);
                assert(entries_map(entries@) =~= old_map.union_prefer_right(here));
            } else {
                assert(old_map.union_prefer_right(here) =~= old_map);
            }
            proof {
                lemma_union_assoc(old_map, here, tags_from(s@, j + 1));
            }
            if j == n {
                assert(tags_from(s@, j + 1) =~= Map::<Seq<char>, Seq<char>>::empty());
                assert(entries_map(entries@).union_prefer_right(Map::empty()) =~= entries_map(entries@));
                i = n;
                assert(tags_from(s@, n as int) =~= Map::<Seq<char>, Seq<char>>::empty());
            } else {
                i = j + 1;
            }
        }
        if n == 0 {
            assert(tags_from(s@, 1) =~= Map::<Seq<char>, Seq<char>>::empty());
        }
        assert(tags_from(s@, i as int) =~= Map::<Seq<char>, Seq<char>>::empty());
        assert(entries_map(entries@).union_prefer_right(Map::empty()) =~= entries_map(entries@));
        Tags { entries }
    }

    /// The value of the tag `key`, if the tags hold it.
    pub fn get(&self, key: &str) -> (r: Option<&str>)
        ensures
            r.is_some() == self@.contains_key(key@),
            r.is_some() ==> r.unwrap()@ == self@[key@],
    {
        let mut i = self.entries.len();
        assert(self.entries@.subrange(0, i as int) =~= self.entries@);
        while i > 0
            invariant
                i <= self.entries@.len(),
                forall|k: int| i <= k < self.entries@.len() ==> self.entries@[k].0@ != key@,
                entries_map(self.entries@).contains_key(key@) == entries_map(self.entries@.subrange(0, i as int)).contains_key(key@),
                entries_map(self.entries@).contains_key(key@) ==> entries_map(self.entries@)[key@] == entries_map(self.entries@.subrange(0, i as int))[key@],
            decreases i,
        {
            let ghost pre = self.entries@.subrange(0, i as int);
            assert(pre.drop_last() =~= self.entries@.subrange(0, i - 1));
            let entry = &self.entries[i - 1];
            if str_eq(entry.0.as_str(), key) {
                assert(pre.last() == *entry);
                return Some(entry.1.as_str());
            }
            i = i - 1;
        }
        assert(self.entries@.subrange(0, 0) =~= Seq::<(String, String)>::empty());
        None
    }
}

} // verus!

verus! {

/// The capability markers of a chat sender.
#[derive(Debug, Clone, Copy, PartialEq, Eq, Structural)]
pub enum Badge {
    Admin,
    Broadcaster,
    GlobalMod,
    Moderator,
    Subscriber,
    Staff,
    Turbo,
}

/// Whether `a` is the lower-case ASCII letter `b`, or its upper-case form.
pub open spec fn same_ignoring_case(a: char, b: char) -> bool {
    a == b || ('a' <= b <= 'z' && a as u32 + 32 == b as u32)
}

/// Whether `tok` spells the lower-case name `name`, ignoring ASCII case.
pub open spec fn names(tok: Seq<char>, name: Seq<char>) -> bool {
    tok.len() == name.len() && forall|k: int| 0 <= k < tok.len() ==> same_ignoring_case(tok[k], name[k])
}

/// The badge that a name denotes, ignoring ASCII case; `None` for an unknown name.
pub open spec fn badge_of(tok: Seq<char>) -> Option<Badge> {
    if names(tok, "admin"@) {
        Some(Badge::Admin)
    } else if names(tok, "broadcaster"@) {
        Some(Badge::Broadcaster)
    } else if names(tok, "global_mod"@) {
        Some(Badge::GlobalMod)
    } else if names(tok, "moderator"@) {
        Some(Badge::Moderator)
    } else if names(tok, "subscriber"@) {
        Some(Badge::Subscriber)
    } else if names(tok, "staff"@) {
        Some(Badge::Staff)
    } else if names(tok, "turbo"@) {
        Some(Badge::Turbo)
    } else {
        None
    }
}

/// The known badges of a `name/version,name/version` list from position `i` on,
/// in order; unknown names are dropped.
pub open spec fn badges_from(v: Seq<char>, i: int) -> Seq<Badge>
    decreases v.len() + 1 - i,
{
    if i >= v.len() {
        seq![]
    } else {
        let j = find_before(v, ',', i, v.len() as int);
        let k = find_before(v, '/', i, j);
        proof {
            lemma_find_before_range(v, ',', i, v.len() as int);
        }
        let rest = badges_from(v, j + 1);
        match badge_of(v.subrange(i, k)) {
            Some(b) => seq![b] + rest,
            None => rest,
        }
    }
}

/// Whether `tok[from..to]` spells the lower-case name `name`, ignoring ASCII case.
fn spells(tok: &Vec<char>, from: usize, to: usize, name: &str) -> (r: bool)
    requires
        from <= to <= tok@.len(),
    ensures
        r == names(tok@.subrange(from as int, to as int), name@),
{
    let ghost t = tok@.subrange(from as int, to as int);
    let n = name.unicode_len();
    if to - from != n {
        return false;
    }
    let mut k: usize = 0;
    while k < n
        invariant
            t == tok@.subrange(from as int, to as int),
            n == name@.len() == to - from,
            from <= to <= tok@.len(),
            k <= n,
            forall|q: int| 0 <= q < k ==> same_ignoring_case(t[q], name@[q]),
        decreases n - k,
    {
        let a = tok[from + k];
        let b = name.get_char(k);
        let same = a == b || ('a' <= b && b <= 'z' && (a as u32) == (b as u32) - 32);
        if !same {
            return false;
        }
        k = k + 1;
    }
    true
}

impl Badge {
    /// The badge named by `tok[from..to]`, ignoring ASCII case.
    fn from_name(tok: &Vec<char>, from: usize, to: usize) -> (r: Option<Badge>)
        requires
            from <= to <= tok@.len(),
        ensures
            r == badge_of(tok@.subrange(from as int, to as int)),
    {
        if spells(tok, from, to, "admin") {
            Some(Badge::Admin)
        } else if spells(tok, from, to, "broadcaster") {
            Some(Badge::Broadcaster)
        } else if spells(tok, from, to, "global_mod") {
            Some(Badge::GlobalMod)
        } else if spells(tok, from, to, "moderator") {
            Some(Badge::Moderator)
        } else if spells(tok, from, to, "subscriber") {
            Some(Badge::Subscriber)
        } else if spells(tok, from, to, "staff") {
            Some(Badge::Staff)
        } else if spells(tok, from, to, "turbo") {
            Some(Badge::Turbo)
        } else {
            None
        }
    }
}

impl Tags {
    /// The known badges listed by the `badges` tag, in order; `None` when there is
    /// no such tag.
    pub fn badges(&self) -> (r: Option<Vec<Badge>>)
        ensures
            r.is_some() == self@.contains_key("badges"@),
            r.is_some() ==> r.unwrap()@ == badges_from(self@["badges"@], 0),
    {
        let value = match self.get("badges") {
            Some(v) => v,
            None => return None,
        };
        let v = chars_of(value);
        let n = v.len();
        let mut out: Vec<Badge> = Vec::new();
        let mut i: usize = 0;
        while i < n
            invariant
                n == v@.len(),
                i <= n,
                badges_from(v@, 0) == out@ + badges_from(v@, i as int),
            decreases n - i,
        {
            let j = find_char(&v, ',', i, n);
            let k = find_char(&v, '/', i, j);
            proof {
                lemma_find_before_range(v@, '/', i as int, j as int);
            }
            let ghost before = out@;
            match Badge::from_name(&v, i, k) {
                Some(b) => {
                    out.push(b);
                    assert(before + badges_from(v@, i as int) =~= out@ + badges_from(v@, j + 1));
                },
                None => {},
            }
            if j == n {
                assert(badges_from(v@, j + 1) =~= Seq::<Badge>::empty());
                i = n;
            } else {
                i = j + 1;
            }
        }
        assert(out@ + badges_from(v@, i as int) =~= out@);
        Some(out)
    }
}

} // verus!

verus! {

/// The command of a chat line.
#[derive(Debug, PartialEq, Clone)]
pub enum IrcCommand {
    Ping { data: String },
    Privmsg { target: String, sender: String, data: String },
    Unknown { cmd: String, args: Vec<String>, data: String },
}

/// What a chat command holds, as character sequences.
pub enum CommandModel {
    Ping { data: Seq<char> },
    Privmsg { target: Seq<char>, sender: Seq<char>, data: Seq<char> },
    Unknown { cmd: Seq<char>, args: Seq<Seq<char>>, data: Seq<char> },
}

/// The views of a list of strings.
pub open spec fn views(v: Seq<String>) -> Seq<Seq<char>> {
    v.map_values(|a: String| a@)
}

impl View for IrcCommand {
    type V = CommandModel;

    open spec fn view(&self) -> CommandModel {
        match self {
            IrcCommand::Ping { data } => CommandModel::Ping { data: data@ },
            IrcCommand::Privmsg { target, sender, data } => CommandModel::Privmsg {
                target: target@,
                sender: sender@,
                data: data@,
            },
            IrcCommand::Unknown { cmd, args, data } => CommandModel::Unknown {
                cmd: cmd@,
                args: views(args@),
                data: data@,
            },
        }
    }
}

/// One parsed chat line.
#[derive(Debug, PartialEq, Clone)]
pub struct IrcMessage {
    pub tags: Tags,
    pub command: IrcCommand,
}

/// What a chat line holds.
pub struct MessageModel {
    pub tags: Map<Seq<char>, Seq<char>>,
    pub command: CommandModel,
}

impl View for IrcMessage {
    type V = MessageModel;

    open spec fn view(&self) -> MessageModel {
        MessageModel { tags: self.tags@, command: self.command@ }
    }
}

/// The positional arguments from position `i` up to the first token that starts
/// with `:`, and the payload: what follows that `:` to the end of the line, or
/// nothing when there is no such token.
pub open spec fn args_from(s: Seq<char>, i: int) -> (Seq<Seq<char>>, Seq<char>)
    decreases s.len() + 1 - i,
{
    if i > s.len() {
        (seq![], seq![])
    } else {
        let st = skip_ws(s, i);
        proof {
            lemma_skip_ws_range(s, i);
        }
        if st >= s.len() {
            (seq![], seq![])
        } else if s[st] == ':' {
            (seq![], s.subrange(st + 1, s.len() as int))
        } else {
            let e = token_end(s, st);
            proof {
                lemma_token_end_range(s, st);
            }
            let rest = args_from(s, e);
            (seq![s.subrange(st, e)] + rest.0, rest.1)
        }
    }
}

/// The sender named by a prefix: the text before its first `!`, or all of it.
pub open spec fn sender_of(prefix: Seq<char>) -> Seq<char> {
    prefix.subrange(0, find_before(prefix, '!', 0, prefix.len() as int))
}

/// The message whose prefix, verb, arguments and payload start at position `i`.
pub open spec fn body_of(s: Seq<char>, i: int, tags: Map<Seq<char>, Seq<char>>) -> Option<MessageModel> {
    let has_prefix = i < s.len() && s[i] == ':';
    let pe = if has_prefix { token_end(s, i) } else { i };
    let v = skip_ws(s, pe);
    if v >= s.len() || s[v] == ':' {
        None
    } else {
        let ve = token_end(s, v);
        let verb = s.subrange(v, ve);
        let (args, data) = args_from(s, ve);
        if verb == "PRIVMSG"@ {
            if !has_prefix || args.len() == 0 {
                None
            } else {
                Some(MessageModel {
                    tags,
                    command: CommandModel::Privmsg {
                        target: args[0],
                        sender: sender_of(s.subrange(i + 1, pe)),
                        data,
                    },
                })
            }
        } else if verb == "PING"@ {
            Some(MessageModel { tags, command: CommandModel::Ping { data } })
        } else {
            Some(MessageModel { tags, command: CommandModel::Unknown { cmd: verb, args, data } })
        }
    }
}

/// The message of a chat line: an optional `@` tag segment up to the first space,
/// an optional `:prefix`, the verb, the arguments and the payload. `None` for an
/// empty line, a tag segment with nothing after it, a line without a verb, and a
/// `PRIVMSG` without a prefix or a target.
pub open spec fn parse_line(s: Seq<char>) -> Option<MessageModel> {
    if s.len() == 0 {
        None
    } else if s[0] == '@' {
        let sp = find_before(s, ' ', 0, s.len() as int);
        if sp >= s.len() {
            None
        } else {
            body_of(s, sp + 1, tags_of(s.subrange(0, sp)))
        }
    } else {
        body_of(s, 0, Map::empty())
    }
}

/// The arguments and payload that start at position `i` of the line.
fn parse_args(input: &str, s: &Vec<char>, i: usize) -> (r: (Vec<String>, String))
    requires
        s@ == input@,
        i <= s@.len(),
    ensures
        views(r.0@) == args_from(s@, i as int).0,
        r.1@ == args_from(s@, i as int).1,
{
    let n = s.len();
    let mut args: Vec<String> = Vec::new();
    let mut k = i;
    while k < n
        invariant
            n == s@.len(),
            s@ == input@,
            i <= k <= n,
            args_from(s@, i as int).0 == views(args@) + args_from(s@, k as int).0,
            args_from(s@, i as int).1 == args_from(s@, k as int).1,
        decreases n - k,
    {
        let st = skip_whitespace(s, k);
        proof {
            lemma_skip_ws_range(s@, k as int);
        }
        if st >= n {
            assert(views(args@) + seq![] =~= views(args@));
            return (args, String::new());
        }
        if s[st] == ':' {
            assert(views(args@) + seq![] =~= views(args@));
            return (args, substring(input, st + 1, n));
        }
        let e = end_of_token(s, st);
        proof {
            lemma_token_end_range(s@, st as int);
        }
        let ghost before = args@;
        args.push(substring(input, st, e));
        assert(views(args@) =~= views(before) + seq![s@.subrange(st as int, e as int)]);
        assert(views(before) + args_from(s@, k as int).0 =~= views(args@) + args_from(s@, e as int).0);
        k = e;
    }
    assert(args_from(s@, k as int).0 =~= Seq::<Seq<char>>::empty());
    assert(views(args@) + seq![] =~= views(args@));
    (args, String::new())
}

impl IrcMessage {
    /// Parses one chat line, without its line terminator.
    pub fn parse(input: &str) -> (r: Option<IrcMessage>)
        ensures
            r.is_some() == parse_line(input@).is_some(),
            r.is_some() ==> r.unwrap()@ == parse_line(input@).unwrap(),
    {
        let s = chars_of(input);
        let n = s.len();
        if n == 0 {
            return None;
        }
        let (start, tags) = if s[0] == '@' {
            let sp = find_char(&s, ' ', 0, n);
            if sp >= n {
                return None;
            }
            let seg = substring(input, 0, sp);
            (sp + 1, Tags::parse(seg.as_str()))
        } else {
            (0, Tags::empty())
        };
        let has_prefix = start < n && s[start] == ':';
        let pe = if has_prefix { end_of_token(&s, start) } else { start };
        let v = skip_whitespace(&s, pe);
        if v >= n || s[v] == ':' {
            return None;
        }
        let ve = end_of_token(&s, v);
        let verb = substring(input, v, ve);
        let (mut args, data) = parse_args(input, &s, ve);
        proof {
            reveal_strlit("PRIVMSG");
            reveal_strlit("PING");
        }
        let command = if str_eq(verb.as_str(), "PRIVMSG") {
            if !has_prefix || args.len() == 0 {
                return None;
            }
            let prefix = substring(input, start + 1, pe);
            let pv = chars_of(prefix.as_str());
            let bang = find_char(&pv, '!', 0, pv.len());
            let sender = substring(prefix.as_str(), 0, bang);
            let target = args.remove(0);
            IrcCommand::Privmsg { target, sender, data }
        } else if str_eq(verb.as_str(), "PING") {
            IrcCommand::Ping { data }
        } else {
            IrcCommand::Unknown { cmd: verb, args, data }
        };
        let r = IrcMessage { tags, command };
        assert(r@.command == parse_line(input@).unwrap().command);
        Some(r)
    }
}

} // verus!
