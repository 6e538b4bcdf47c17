//! The tag classifier: which message category a capture entry's tag names.

use vstd::prelude::*;

verus! {

/// The category of message that a capture entry holds.
#[derive(Clone, Copy, Debug, PartialEq, Eq, Structural)]
pub enum MessageCategory {
    AuthServer,
    WorldServer,
    WorldClient,
    Ignored,
}

/// Whether `needle` occurs in `hay` at offset `at`.
pub open spec fn occurs_at(hay: Seq<char>, needle: Seq<char>, at: int) -> bool {
    0 <= at && at + needle.len() <= hay.len() && hay.subrange(at, at + needle.len()) == needle
}

/// Whether `needle` occurs somewhere in `hay`.
pub open spec fn contains(hay: Seq<char>, needle: Seq<char>) -> bool {
    exists|at: int| occurs_at(hay, needle, at)
}

/// Whether one of `needles` occurs somewhere in `hay`.
pub open spec fn contains_any(hay: Seq<char>, needles: Seq<Seq<char>>) -> bool {
    exists|k: int| 0 <= k < needles.len() && contains(hay, #[trigger] needles[k])
}

/// The characters of `text`, in order.
pub fn chars_of(text: &str) -> (out: Vec<char>)
    ensures
        out@ == text@,
{
    let mut out: Vec<char> = Vec::new();
    for c in iter: text.chars()
        invariant
            iter.seq() == text@,
            out@ == text@.subrange(0, iter.index() as int),
    {
        out.push(c);
        assert(out@ =~= text@.subrange(0, iter.index() + 1));
    }
    assert(out@ =~= text@);
    out
}

fn matches_at(hay: &Vec<char>, needle: &Vec<char>, at: usize) -> (found: bool)
    requires
        at + needle@.len() <= hay@.len(),
    ensures
        found == occurs_at(hay@, needle@, at as int),
{
    let width: usize = needle.len();
    let total: usize = hay.len();
    let mut k: usize = 0;
    while k < width
        invariant
            k <= width == needle@.len(),
            at + width <= total == hay@.len(),
            forall|j: int| 0 <= j < k ==> hay@[at + j] == needle@[j],
        decreases needle@.len() - k,
    {
        if hay[at + k] != needle[k] {
            assert(hay@.subrange(at as int, at + needle@.len())[k as int] != needle@[k as int]);
            return false;
        }
        k = k + 1;
    }
    assert(hay@.subrange(at as int, at + needle@.len()) =~= needle@);
    true
}

/// Whether `needle` occurs somewhere in `hay`.
pub fn find(hay: &Vec<char>, needle: &Vec<char>) -> (found: bool)
    ensures
        found == contains(hay@, needle@),
{
    if needle.len() > hay.len() {
        return false;
    }
    let last: usize = hay.len() - needle.len();
    let mut at: usize = 0;
    while at < last
        invariant
            last == hay@.len() - needle@.len(),
            at <= last,
            forall|j: int| 0 <= j < at ==> !occurs_at(hay@, needle@, j),
        decreases last - at,
    {
        if matches_at(hay, needle, at) {
            return true;
        }
        at = at + 1;
    }
    matches_at(hay, needle, last)
}

/// The exclusion lists of a rule table, as character sequences.
pub struct RuleTableView {
    pub world_server_exclusions: Seq<Seq<char>>,
    pub world_client_exclusions: Seq<Seq<char>>,
    pub construction_exclusions: Seq<Seq<char>>,
}

/// The codes that take a tag out of a category whose marker it carries.
pub struct RuleTable {
    world_server_exclusions: Vec<Vec<char>>,
    world_client_exclusions: Vec<Vec<char>>,
    construction_exclusions: Vec<Vec<char>>,
}

/// The character sequences that a list of codes holds.
pub open spec fn code_views(codes: Seq<Vec<char>>) -> Seq<Seq<char>> {
    Seq::new(codes.len(), |k: int| codes[k]@)
}

impl View for RuleTable {
    type V = RuleTableView;

    closed spec fn view(&self) -> RuleTableView {
        RuleTableView {
            world_server_exclusions: code_views(self.world_server_exclusions@),
            world_client_exclusions: code_views(self.world_client_exclusions@),
            construction_exclusions: code_views(self.construction_exclusions@),
        }
    }
}

/// The category that `tag` names under `rules`. The continuation marker comes first,
/// then the auth marker, then the world server marker unless excluded, then the
/// world client markers, two of them unless excluded.
pub open spec fn category_of(tag: Seq<char>, rules: RuleTableView) -> MessageCategory {
    if contains(tag, "of"@) {
        MessageCategory::Ignored
    } else if contains(tag, "[53-01-"@) {
        MessageCategory::AuthServer
    } else if contains(tag, "[53-04-"@) && !contains_any(tag, rules.world_server_exclusions) {
        MessageCategory::WorldServer
    } else if contains(tag, "[53-02-"@) || (contains(tag, "[53-05-"@) && !contains_any(
        tag,
        rules.world_client_exclusions,
    )) || (contains(tag, "[24]"@) && !contains_any(tag, rules.construction_exclusions))
        || contains(tag, "[27]"@) {
        MessageCategory::WorldClient
    } else {
        MessageCategory::Ignored
    }
}

/// The frozen exclusion lists of the protocol version that the captures were taken from.
pub open spec fn standard_rules() -> RuleTableView {
    RuleTableView {
        world_server_exclusions: standard_world_server_exclusions(),
        world_client_exclusions: standard_world_client_exclusions(),
        construction_exclusions: standard_construction_exclusions(),
    }
}

pub open spec fn standard_world_server_exclusions() -> Seq<Seq<char>> {
    seq![
        "[53-04-00-16]"@,
        "[e6-00]"@,
        "[6b-03]"@,
        "[16-04]"@,
        "[49-04]"@,
        "[ad-04]"@,
        "[1c-05]"@,
        "[230]"@,
        "[875]"@,
        "[1046]"@,
        "[1097]"@,
        "[1197]"@,
        "[1308]"@,
    ]
}

pub open spec fn standard_world_client_exclusions() -> Seq<Seq<char>> {
    seq![
        "[53-05-00-00]"@,
        "[53-05-00-15]"@,
        "[53-05-00-31]"@,
        "[76-00]"@,
        "[e6-00]"@,
        "[ff-00]"@,
        "[a1-01]"@,
        "[7f-02]"@,
        "[a3-02]"@,
        "[cc-02]"@,
        "[35-03]"@,
        "[36-03]"@,
        "[4d-03]"@,
        "[6d-03]"@,
        "[91-03]"@,
        "[1a-05]"@,
        "[e6-05]"@,
        "[16-06]"@,
        "[1c-06]"@,
        "[6f-06]"@,
        "[70-06]"@,
        "[118]"@,
        "[230]"@,
        "[255]"@,
        "[417]"@,
        "[639]"@,
        "[675]"@,
        "[716]"@,
        "[821]"@,
        "[822]"@,
        "[845]"@,
        "[877]"@,
        "[913]"@,
        "[1306]"@,
        "[1510]"@,
        "[1558]"@,
        "[1564]"@,
        "[1647]"@,
        "[1648]"@,
    ]
}

pub open spec fn standard_construction_exclusions() -> Seq<Seq<char>> {
    seq![
        "(2365)"@,
        "(4930)"@,
        "(5635)"@,
        "(5958)"@,
        "(6007)"@,
        "(6010)"@,
        "(6209)"@,
        "(6267)"@,
        "(6289)"@,
        "(6319)"@,
        "(7282)"@,
        "(8304)"@,
    ]
}

fn push_code(codes: &mut Vec<Vec<char>>, code: &str)
    ensures
        code_views(final(codes)@) == code_views(old(codes)@).push(code@),
{
    codes.push(chars_of(code));
    assert(code_views(codes@) =~= code_views(old(codes)@).push(code@));
}

fn find_any(hay: &Vec<char>, needles: &Vec<Vec<char>>) -> (found: bool)
    ensures
        found == contains_any(hay@, code_views(needles@)),
{
    let mut k: usize = 0;
    while k < needles.len()
        invariant
            k <= needles@.len(),
            forall|j: int| 0 <= j < k ==> !contains(hay@, #[trigger] code_views(needles@)[j]),
        decreases needles@.len() - k,
    {
        if find(hay, &needles[k]) {
            assert(contains(hay@, code_views(needles@)[k as int]));
            return true;
        }
        k = k + 1;
    }
    false
}

fn has_marker(tag: &Vec<char>, marker: &str) -> (found: bool)
    ensures
        found == contains(tag@, marker@),
{
    let needle = chars_of(marker);
    find(tag, &needle)
}

impl RuleTable {
    /// A table that excludes nothing.
    pub fn new() -> (rules: RuleTable)
        ensures
            rules@.world_server_exclusions == Seq::<Seq<char>>::empty(),
            rules@.world_client_exclusions == Seq::<Seq<char>>::empty(),
            rules@.construction_exclusions == Seq::<Seq<char>>::empty(),
    {
        let rules = RuleTable {
            world_server_exclusions: Vec::new(),
            world_client_exclusions: Vec::new(),
            construction_exclusions: Vec::new(),
        };
        assert(rules@.world_server_exclusions =~= Seq::<Seq<char>>::empty());
        assert(rules@.world_client_exclusions =~= Seq::<Seq<char>>::empty());
        assert(rules@.construction_exclusions =~= Seq::<Seq<char>>::empty());
        rules
    }

    /// Adds a code that keeps a tag with the world server marker out of that category.
    pub fn exclude_world_server(&mut self, code: &str)
        ensures
            final(self)@ == (RuleTableView {
                world_server_exclusions: old(self)@.world_server_exclusions.push(code@),
                ..old(self)@
            }),
    {
        push_code(&mut self.world_server_exclusions, code);
    }

    /// Adds a code that keeps a tag with the second world client marker out of that category.
    pub fn exclude_world_client(&mut self, code: &str)
        ensures
            final(self)@ == (RuleTableView {
                world_client_exclusions: old(self)@.world_client_exclusions.push(code@),
                ..old(self)@
            }),
    {
        push_code(&mut self.world_client_exclusions, code);
    }

    /// Adds a code that keeps a tag with the construction marker out of the world client category.
    pub fn exclude_construction(&mut self, code: &str)
        ensures
            final(self)@ == (RuleTableView {
                construction_exclusions: old(self)@.construction_exclusions.push(code@),
                ..old(self)@
            }),
    {
        push_code(&mut self.construction_exclusions, code);
    }

    /// The frozen table of the protocol version that the captures were taken from.
    pub fn standard() -> (rules: RuleTable)
        ensures
            rules@ == standard_rules(),
    {
        let mut world_server: Vec<Vec<char>> = Vec::new();
        let mut world_client: Vec<Vec<char>> = Vec::new();
        let mut construction: Vec<Vec<char>> = Vec::new();
        assert(code_views(world_server@) =~= Seq::<Seq<char>>::empty());
        assert(code_views(world_client@) =~= Seq::<Seq<char>>::empty());
        assert(code_views(construction@) =~= Seq::<Seq<char>>::empty());
        push_code(&mut world_server, "[53-04-00-16]");
        push_code(&mut world_server, "[e6-00]");
        push_code(&mut world_server, "[6b-03]");
        push_code(&mut world_server, "[16-04]");
        push_code(&mut world_server, "[49-04]");
        push_code(&mut world_server, "[ad-04]");
        push_code(&mut world_server, "[1c-05]");
        push_code(&mut world_server, "[230]");
        push_code(&mut world_server, "[875]");
        push_code(&mut world_server, "[1046]");
        push_code(&mut world_server, "[1097]");
        push_code(&mut world_server, "[1197]");
        push_code(&mut world_server, "[1308]");
        push_code(&mut world_client, "[53-05-00-00]");
        push_code(&mut world_client, "[53-05-00-15]");
        push_code(&mut world_client, "[53-05-00-31]");
        push_code(&mut world_client, "[76-00]");
        push_code(&mut world_client, "[e6-00]");
        push_code(&mut world_client, "[ff-00]");
        push_code(&mut world_client, "[a1-01]");
        push_code(&mut world_client, "[7f-02]");
        push_code(&mut world_client, "[a3-02]");
        push_code(&mut world_client, "[cc-02]");
        push_code(&mut world_client, "[35-03]");
        push_code(&mut world_client, "[36-03]");
        push_code(&mut world_client, "[4d-03]");
        push_code(&mut world_client, "[6d-03]");
        push_code(&mut world_client, "[91-03]");
        push_code(&mut world_client, "[1a-05]");
        push_code(&mut world_client, "[e6-05]");
        push_code(&mut world_client, "[16-06]");
        push_code(&mut world_client, "[1c-06]");
        push_code(&mut world_client, "[6f-06]");
        push_code(&mut world_client, "[70-06]");
        push_code(&mut world_client, "[118]");
        push_code(&mut world_client, "[230]");
        push_code(&mut world_client, "[255]");
        push_code(&mut world_client, "[417]");
        push_code(&mut world_client, "[639]");
        push_code(&mut world_client, "[675]");
        push_code(&mut world_client, "[716]");
        push_code(&mut world_client, "[821]");
        push_code(&mut world_client, "[822]");
        push_code(&mut world_client, "[845]");
        push_code(&mut world_client, "[877]");
        push_code(&mut world_client, "[913]");
        push_code(&mut world_client, "[1306]");
        push_code(&mut world_client, "[1510]");
        push_code(&mut world_client, "[1558]");
        push_code(&mut world_client, "[1564]");
        push_code(&mut world_client, "[1647]");
        push_code(&mut world_client, "[1648]");
        push_code(&mut construction, "(2365)");
        push_code(&mut construction, "(4930)");
        push_code(&mut construction, "(5635)");
        push_code(&mut construction, "(5958)");
        push_code(&mut construction, "(6007)");
        push_code(&mut construction, "(6010)");
        push_code(&mut construction, "(6209)");
        push_code(&mut construction, "(6267)");
        push_code(&mut construction, "(6289)");
        push_code(&mut construction, "(6319)");
        push_code(&mut construction, "(7282)");
        push_code(&mut construction, "(8304)");
        assert(code_views(world_server@) == standard_world_server_exclusions());
        assert(code_views(world_client@) == standard_world_client_exclusions());
        assert(code_views(construction@) == standard_construction_exclusions());
        RuleTable {
            world_server_exclusions: world_server,
            world_client_exclusions: world_client,
            construction_exclusions: construction,
        }
    }

    /// The category that `tag` names under this table.
    pub fn classify(&self, tag: &str) -> (category: MessageCategory)
        ensures
            category == category_of(tag@, self@),
    {
        let chars = chars_of(tag);
        if has_marker(&chars, "of") {
            MessageCategory::Ignored
        } else if has_marker(&chars, "[53-01-") {
            MessageCategory::AuthServer
        } else if has_marker(&chars, "[53-04-") && !find_any(&chars, &self.world_server_exclusions) {
            MessageCategory::WorldServer
        } else if has_marker(&chars, "[53-02-") || (has_marker(&chars, "[53-05-") && !find_any(
            &chars,
            &self.world_client_exclusions,
        )) || (has_marker(&chars, "[24]") && !find_any(&chars, &self.construction_exclusions))
            || has_marker(&chars, "[27]") {
            MessageCategory::WorldClient
        } else {
            MessageCategory::Ignored
        }
    }
}

/// The category that `tag` names under the standard table.
pub fn classify(tag: &str) -> (category: MessageCategory)
    ensures
        category == category_of(tag@, standard_rules()),
{
    let rules = RuleTable::standard();
    rules.classify(tag)
}

/// A tag that carries the continuation marker is ignored, whatever else it carries
/// and whatever the table excludes.
pub proof fn lemma_continuation_is_ignored(tag: Seq<char>, rules: RuleTableView)
    requires
        contains(tag, "of"@),
    ensures
        category_of(tag, rules) == MessageCategory::Ignored,
{
}

/// A tag that carries no marker at all is ignored.
pub proof fn lemma_unmarked_is_ignored(tag: Seq<char>, rules: RuleTableView)
    requires
        !contains(tag, "[53-01-"@),
        !contains(tag, "[53-04-"@),
        !contains(tag, "[53-02-"@),
        !contains(tag, "[53-05-"@),
        !contains(tag, "[24]"@),
        !contains(tag, "[27]"@),
    ensures
        category_of(tag, rules) == MessageCategory::Ignored,
{
}

} // verus!
