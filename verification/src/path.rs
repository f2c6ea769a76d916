//! Paths as sequences of named components.
//!
//! A path is either absolute or relative and holds the names that lead from
//! its starting point to what it addresses. Joining, stripping a prefix and
//! taking the parent are then operations on sequences, and a relative path
//! addresses the same file under any root it is joined to.

use vstd::prelude::*;

verus! {

/// What a path is: whether it starts at the filesystem root, and the names
/// that lead from there (or from wherever it is resolved against).
pub struct PathModel {
    pub absolute: bool,
    pub parts: Seq<Seq<char>>,
}

/// A filesystem path, held as its components.
#[derive(Debug)]
pub struct FilePath {
    pub absolute: bool,
    pub parts: Vec<String>,
}

/// The names that a vector of strings holds.
pub open spec fn names(parts: Seq<String>) -> Seq<Seq<char>> {
    Seq::new(parts.len(), |i: int| parts[i]@)
}

impl View for FilePath {
    type V = PathModel;

    open spec fn view(&self) -> PathModel {
        PathModel { absolute: self.absolute, parts: names(self.parts@) }
    }
}

/// The suffix that names a backup copy.
pub open spec fn bak_suffix() -> Seq<char> {
    seq!['.', 'b', 'a', 'k']
}

/// The name of the version-control metadata directory, which no walk enters.
pub open spec fn reserved_name() -> Seq<char> {
    seq!['.', 'g', 'i', 't']
}

impl PathModel {
    /// `rel` resolved against `self`: an absolute `rel` stands for itself, a
    /// relative one continues where `self` ends.
    pub open spec fn join(self, rel: PathModel) -> PathModel {
        if rel.absolute {
            rel
        } else {
            PathModel { absolute: self.absolute, parts: self.parts + rel.parts }
        }
    }

    /// One more component below `self`.
    pub open spec fn child(self, name: Seq<char>) -> PathModel {
        PathModel { absolute: self.absolute, parts: self.parts.push(name) }
    }

    /// Whether `self` lies at or below `base`, component by component.
    pub open spec fn starts_with(self, base: PathModel) -> bool {
        self.absolute == base.absolute && base.parts.is_prefix_of(self.parts)
    }

    /// What leads from `base` to `self`, where `self` lies at or below `base`.
    pub open spec fn strip_prefix(self, base: PathModel) -> Option<PathModel> {
        if self.starts_with(base) {
            Some(PathModel { absolute: false, parts: self.parts.skip(base.parts.len() as int) })
        } else {
            None
        }
    }

    /// The directory that holds `self`; a path without components has none.
    pub open spec fn parent(self) -> Option<PathModel> {
        if self.parts.len() == 0 {
            None
        } else {
            Some(PathModel { absolute: self.absolute, parts: self.parts.drop_last() })
        }
    }

    /// The sibling path that holds a backup of `self`: the suffix is appended
    /// to the last component, whatever extension it already has. A path
    /// without components gets the suffix as its only component.
    pub open spec fn with_bak(self) -> PathModel {
        if self.parts.len() == 0 {
            PathModel { absolute: self.absolute, parts: seq![bak_suffix()] }
        } else {
            PathModel {
                absolute: self.absolute,
                parts: self.parts.drop_last().push(self.parts.last() + bak_suffix()),
            }
        }
    }
}

/// The length of the longest prefix of `s` that holds no separator.
pub open spec fn first_sep(s: Seq<char>) -> int
    decreases s.len(),
{
    if s.len() == 0 || s[0] == '/' {
        0
    } else {
        1 + first_sep(s.drop_first())
    }
}

/// Whether a name between two separators is a component: empty names and the
/// name `.` address nothing new and are dropped.
pub open spec fn is_component(name: Seq<char>) -> bool {
    name.len() > 0 && name != seq!['.']
}

/// The components of a path written with `/` between them.
pub open spec fn split(s: Seq<char>) -> Seq<Seq<char>>
    decreases s.len(),
{
    if s.len() == 0 {
        Seq::empty()
    } else {
        let k = first_sep(s);
        let head = s.take(k);
        let tail = if 0 <= k < s.len() {
            split(s.skip(k + 1))
        } else {
            Seq::empty()
        };
        if is_component(head) {
            seq![head] + tail
        } else {
            tail
        }
    }
}

/// The path that a text names: absolute where it begins with a separator.
pub open spec fn parse_text(s: Seq<char>) -> PathModel {
    PathModel { absolute: s.len() > 0 && s[0] == '/', parts: split(s) }
}

/// Names written one after the other with a separator between neighbours.
pub open spec fn join_names(parts: Seq<Seq<char>>) -> Seq<char>
    decreases parts.len(),
{
    if parts.len() == 0 {
        Seq::empty()
    } else if parts.len() == 1 {
        parts[0]
    } else {
        join_names(parts.drop_last()) + seq!['/'] + parts.last()
    }
}

/// The text of a path: a leading separator where it is absolute, then its
/// names.
pub open spec fn render_text(p: PathModel) -> Seq<char> {
    if p.absolute {
        seq!['/'] + join_names(p.parts)
    } else {
        join_names(p.parts)
    }
}

/// `first_sep` is the position of the first separator, or the length where
/// there is none.
pub proof fn lemma_first_sep(s: Seq<char>, k: int)
    requires
        0 <= k <= s.len(),
        forall|j: int| 0 <= j < k ==> s[j] != '/',
        k < s.len() ==> s[k] == '/',
    ensures
        first_sep(s) == k,
    decreases s.len(),
{
    if s.len() == 0 || s[0] == '/' {
    } else {
        let t = s.drop_first();
        assert forall|j: int| 0 <= j < k - 1 implies t[j] != '/' by {
            assert(t[j] == s[j + 1]);
        }
        lemma_first_sep(t, k - 1);
    }
}

/// Copies the components of `parts` from `from` up to `to`.
fn copy_parts(parts: &Vec<String>, from: usize, to: usize) -> (out: Vec<String>)
    requires
        from <= to <= parts.len(),
    ensures
        out@.len() == to - from,
        forall|j: int| 0 <= j < to - from ==> out@[j]@ == parts@[from + j]@,
        names(out@) == names(parts@).subrange(from as int, to as int),
{
    let mut out: Vec<String> = Vec::new();
    let mut i: usize = from;
    while i < to
        invariant
            from <= i <= to <= parts.len(),
            out@.len() == i - from,
            forall|j: int| 0 <= j < i - from ==> out@[j]@ == parts@[from + j]@,
        decreases to - i,
    {
        out.push(parts[i].clone());
        i += 1;
    }
    assert(names(out@) =~= names(parts@).subrange(from as int, to as int));
    out
}

impl Clone for FilePath {
    fn clone(&self) -> (copy: Self)
        ensures
            copy@ == self@,
    {
        let parts = copy_parts(&self.parts, 0, self.parts.len());
        assert(names(self.parts@).subrange(0, self.parts@.len() as int) =~= names(self.parts@));
        FilePath { absolute: self.absolute, parts }
    }
}

impl FilePath {
    /// The path with the given components.
    pub fn new(absolute: bool, parts: Vec<String>) -> (path: FilePath)
        ensures
            path@ == (PathModel { absolute, parts: names(parts@) }),
    {
        FilePath { absolute, parts }
    }

    /// Whether two paths have the same components.
    pub fn same_as(&self, other: &FilePath) -> (same: bool)
        ensures
            same == (self@ == other@),
    {
        if self.absolute != other.absolute || self.parts.len() != other.parts.len() {
            assert(self@ != other@) by {
                if self@ == other@ {
                    assert(names(self.parts@).len() == names(other.parts@).len());
                }
            }
            return false;
        }
        let n = self.parts.len();
        let mut i: usize = 0;
        while i < n
            invariant
                i <= n,
                n == self.parts.len(),
                n == other.parts.len(),
                forall|j: int| 0 <= j < i ==> self.parts@[j]@ == other.parts@[j]@,
            decreases n - i,
        {
            if self.parts[i] != other.parts[i] {
                assert(names(self.parts@)[i as int] != names(other.parts@)[i as int]);
                return false;
            }
            i += 1;
        }
        assert(names(self.parts@) =~= names(other.parts@));
        true
    }

    /// `rel` resolved against this path.
    pub fn join(&self, rel: &FilePath) -> (joined: FilePath)
        ensures
            joined@ == self@.join(rel@),
    {
        if rel.absolute {
            rel.clone()
        } else {
            let mut parts = copy_parts(&self.parts, 0, self.parts.len());
            let n = rel.parts.len();
            let mut i: usize = 0;
            while i < n
                invariant
                    i <= n,
                    n == rel.parts.len(),
                    parts@.len() == self.parts.len() + i,
                    forall|j: int| 0 <= j < self.parts.len() ==> parts@[j]@ == self.parts@[j]@,
                    forall|j: int| 0 <= j < i ==> parts@[self.parts.len() + j]@ == rel.parts@[j]@,
                decreases n - i,
            {
                parts.push(rel.parts[i].clone());
                i += 1;
            }
            assert(names(parts@) =~= names(self.parts@) + names(rel.parts@));
            FilePath { absolute: self.absolute, parts }
        }
    }

    /// The entry called `name` in this directory.
    pub fn child(&self, name: &String) -> (entry: FilePath)
        ensures
            entry@ == self@.child(name@),
    {
        let mut parts = copy_parts(&self.parts, 0, self.parts.len());
        parts.push(name.clone());
        assert(names(parts@) =~= names(self.parts@).push(name@));
        FilePath { absolute: self.absolute, parts }
    }

    /// Whether this path lies at or below `base`.
    pub fn starts_with(&self, base: &FilePath) -> (below: bool)
        ensures
            below == self@.starts_with(base@),
    {
        if self.absolute != base.absolute || base.parts.len() > self.parts.len() {
            return false;
        }
        let n = base.parts.len();
        let mut i: usize = 0;
        while i < n
            invariant
                i <= n,
                n == base.parts.len(),
                n <= self.parts.len(),
                forall|j: int| 0 <= j < i ==> self.parts@[j]@ == base.parts@[j]@,
            decreases n - i,
        {
            if self.parts[i] != base.parts[i] {
                assert(names(self.parts@)[i as int] != names(base.parts@)[i as int]);
                return false;
            }
            i += 1;
        }
        assert(names(base.parts@) =~= names(self.parts@).subrange(0, n as int));
        true
    }

    /// What leads from `base` to this path: `None` unless this path lies at
    /// or below `base`.
    pub fn strip_prefix(&self, base: &FilePath) -> (rest: Option<FilePath>)
        ensures
            rest is Some <==> self@.starts_with(base@),
            rest matches Some(r) ==> Some(r@) == self@.strip_prefix(base@),
    {
        if self.starts_with(base) {
            let parts = copy_parts(&self.parts, base.parts.len(), self.parts.len());
            assert(names(self.parts@).subrange(
                base.parts@.len() as int,
                self.parts@.len() as int,
            ) =~= names(self.parts@).skip(base.parts@.len() as int));
            Some(FilePath { absolute: false, parts })
        } else {
            None
        }
    }

    /// The directory that holds this path.
    pub fn parent(&self) -> (dir: Option<FilePath>)
        ensures
            dir is Some <==> self@.parts.len() > 0,
            dir matches Some(d) ==> Some(d@) == self@.parent(),
    {
        let n = self.parts.len();
        if n == 0 {
            None
        } else {
            let parts = copy_parts(&self.parts, 0, n - 1);
            assert(names(self.parts@).subrange(0, n - 1) =~= names(self.parts@).drop_last());
            Some(FilePath { absolute: self.absolute, parts })
        }
    }

    /// Reads a path written with `/` between its components. Empty names
    /// and the name `.` are dropped, so what was read is well-formed.
    pub fn parse(text: &str) -> (path: FilePath)
        ensures
            path@ == parse_text(text@),
            path@.well_formed(),
    {
        proof {
            law_parse_is_well_formed(text@);
        }
        let n = text.unicode_len();
        let absolute = n > 0 && text.get_char(0) == '/';
        let mut parts: Vec<String> = Vec::new();
        let mut start: usize = 0;
        assert(text@.skip(0) =~= text@);
        while start < n
            invariant
                start <= n,
                n == text@.len(),
                split(text@) == names(parts@) + split(text@.skip(start as int)),
            decreases n - start,
        {
            let ghost rest = text@.skip(start as int);
            let ghost before = names(parts@);
            let mut end: usize = start;
            while end < n && text.get_char(end) != '/'
                invariant
                    start <= end <= n,
                    n == text@.len(),
                    forall|j: int| start <= j < end ==> text@[j] != '/',
                decreases n - end,
            {
                end += 1;
            }
            proof {
                assert forall|j: int| 0 <= j < end - start implies rest[j] != '/' by {
                    assert(rest[j] == text@[start + j]);
                }
                lemma_first_sep(rest, end - start);
                assert(rest.take(end - start) =~= text@.subrange(start as int, end as int));
                if end < n {
                    assert(rest.skip(end - start + 1) =~= text@.skip(end + 1));
                }
            }
            let name = text.substring_char(start, end);
            let single_dot = end - start == 1 && text.get_char(start) == '.';
            proof {
                if end - start == 1 {
                    assert(name@ =~= seq![text@[start as int]]);
                    assert(seq![text@[start as int]][0] == text@[start as int]);
                }
            }
            if end > start && !single_dot {
                parts.push(name.to_owned());
                assert(names(parts@) =~= before + seq![name@]);
            }
            if end < n {
                start = end + 1;
            } else {
                start = end;
                assert(text@.skip(n as int) =~= Seq::<char>::empty());
            }
            assert(split(text@) =~= names(parts@) + split(text@.skip(start as int)));
        }
        assert(names(parts@) + split(text@.skip(n as int)) =~= names(parts@));
        FilePath { absolute, parts }
    }

    /// Writes the path with `/` between its components.
    pub fn render(&self) -> (text: String)
        ensures
            text@ == render_text(self@),
    {
        let mut text = String::new();
        let n = self.parts.len();
        let mut i: usize = 0;
        let ghost parts = names(self.parts@);
        assert(parts.take(0) =~= Seq::<Seq<char>>::empty());
        while i < n
            invariant
                i <= n,
                n == self.parts.len(),
                parts == names(self.parts@),
                text@ == join_names(parts.take(i as int)),
            decreases n - i,
        {
            proof {
                reveal_strlit("/");
                assert(parts.take(i + 1).drop_last() =~= parts.take(i as int));
                assert("/"@ =~= seq!['/']);
            }
            if i > 0 {
                text.append("/");
            }
            text.append(self.parts[i].as_str());
            i += 1;
        }
        assert(parts.take(n as int) =~= parts);
        if self.absolute {
            proof {
                reveal_strlit("/");
                assert("/"@ =~= seq!['/']);
            }
            let mut rooted = "/".to_owned();
            rooted.append(text.as_str());
            rooted
        } else {
            text
        }
    }
}

/// The path of the backup copy of `path`.
pub fn with_bak(path: &FilePath) -> (backup: FilePath)
    ensures
        backup@ == path@.with_bak(),
{
    proof {
        reveal_strlit(".bak");
        assert(".bak"@ =~= bak_suffix());
    }
    let n = path.parts.len();
    if n == 0 {
        let mut parts: Vec<String> = Vec::new();
        parts.push(".bak".to_owned());
        assert(names(parts@) =~= seq![bak_suffix()]);
        FilePath { absolute: path.absolute, parts }
    } else {
        let mut parts = copy_parts(&path.parts, 0, n - 1);
        let mut last = path.parts[n - 1].clone();
        last.append(".bak");
        parts.push(last);
        assert(names(parts@) =~= path@.with_bak().parts);
        FilePath { absolute: path.absolute, parts }
    }
}

/// Whether a directory entry carries the reserved name.
pub fn is_reserved(name: &String) -> (reserved: bool)
    ensures
        reserved == (name@ == reserved_name()),
{
    proof {
        reveal_strlit(".git");
        assert(".git"@ =~= reserved_name());
    }
    let reserved = ".git".to_owned();
    *name == reserved
}

/// A relative path is found again by stripping the root it was joined to:
/// it names the same file under every root.
pub proof fn law_strip_undoes_join(base: PathModel, rel: PathModel)
    requires
        !rel.absolute,
    ensures
        base.join(rel).starts_with(base),
        base.join(rel).strip_prefix(base) == Some(rel),
{
    assert(base.parts.is_prefix_of(base.parts + rel.parts));
    assert((base.parts + rel.parts).skip(base.parts.len() as int) =~= rel.parts);
}

/// A path below a root is the root joined with what stripping leaves.
pub proof fn law_join_undoes_strip(base: PathModel, path: PathModel)
    requires
        path.starts_with(base),
    ensures
        path.strip_prefix(base) is Some,
        base.join(path.strip_prefix(base)->Some_0) == path,
{
    assert(base.parts + path.parts.skip(base.parts.len() as int) =~= path.parts);
}

/// Whether `name` can stand between two separators and be read back: it is
/// a component and holds no separator itself.
pub open spec fn is_name(name: Seq<char>) -> bool {
    is_component(name) && forall|i: int| 0 <= i < name.len() ==> name[i] != '/'
}

impl PathModel {
    /// Whether every component is a name. A path that was parsed is
    /// well-formed, and so is what the operations make of well-formed paths.
    pub open spec fn well_formed(self) -> bool {
        forall|i: int| 0 <= i < self.parts.len() ==> is_name(#[trigger] self.parts[i])
    }
}

/// `first_sep` lies within the text, no separator stands before it, and a
/// separator stands at it unless the text ends there.
pub proof fn lemma_first_sep_is_first(s: Seq<char>)
    ensures
        0 <= first_sep(s) <= s.len(),
        forall|j: int| 0 <= j < first_sep(s) ==> s[j] != '/',
        first_sep(s) < s.len() ==> s[first_sep(s)] == '/',
    decreases s.len(),
{
    if s.len() == 0 || s[0] == '/' {
    } else {
        let t = s.drop_first();
        lemma_first_sep_is_first(t);
        assert forall|j: int| 0 <= j < first_sep(s) implies s[j] != '/' by {
            if j > 0 {
                assert(t[j - 1] == s[j]);
            }
        }
        if first_sep(s) < s.len() {
            assert(t[first_sep(t)] == s[first_sep(s)]);
        }
    }
}

/// Every path that is read from text is well-formed.
pub proof fn law_parse_is_well_formed(s: Seq<char>)
    ensures
        parse_text(s).well_formed(),
    decreases s.len(),
{
    if s.len() > 0 {
        let k = first_sep(s);
        lemma_first_sep_is_first(s);
        let head = s.take(k);
        if k < s.len() {
            law_parse_is_well_formed(s.skip(k + 1));
        }
        let tail = if 0 <= k < s.len() {
            split(s.skip(k + 1))
        } else {
            Seq::empty()
        };
        assert forall|i: int| 0 <= i < split(s).len() implies is_name(#[trigger] split(s)[i]) by {
            if is_component(head) {
                if i == 0 {
                    assert(split(s)[0] == head);
                } else {
                    assert(split(s)[i] == tail[i - 1]);
                    assert(parse_text(s.skip(k + 1)).parts[i - 1] == tail[i - 1]);
                }
            } else {
                assert(parse_text(s.skip(k + 1)).parts[i] == tail[i]);
            }
        }
    }
}

/// A separator at the front of a text adds no component.
proof fn lemma_split_after_separator(t: Seq<char>)
    ensures
        split(seq!['/'] + t) == split(t),
{
    let s = seq!['/'] + t;
    assert(s[0] == '/');
    assert(first_sep(s) == 0);
    assert(s.take(0) =~= Seq::<char>::empty());
    assert(s.skip(1) =~= t);
    if t.len() == 0 {
        assert(split(t) =~= Seq::<Seq<char>>::empty());
    }
}

/// A name at the front of a text, followed by a separator, is its first
/// component.
proof fn lemma_split_after_name(name: Seq<char>, t: Seq<char>)
    requires
        is_name(name),
    ensures
        split(name + seq!['/'] + t) == seq![name] + split(t),
        split(name) == seq![name],
{
    let s = name + seq!['/'] + t;
    let k = name.len() as int;
    assert(s[k] == '/');
    assert forall|j: int| 0 <= j < k implies s[j] != '/' by {
        assert(s[j] == name[j]);
    }
    lemma_first_sep(s, k);
    assert(s.take(k) =~= name);
    assert(s.skip(k + 1) =~= t);
    if t.len() == 0 {
        assert(split(t) =~= Seq::<Seq<char>>::empty());
    }
    lemma_first_sep(name, k);
    assert(name.take(k) =~= name);
    assert(seq![name] + Seq::<Seq<char>>::empty() =~= seq![name]);
}

/// Joined names begin with the first name; what follows is a separator and
/// the other names, joined.
proof fn lemma_join_names_from_front(parts: Seq<Seq<char>>)
    requires
        parts.len() >= 2,
    ensures
        join_names(parts) == parts[0] + seq!['/'] + join_names(parts.drop_first()),
    decreases parts.len(),
{
    let init = parts.drop_last();
    let rest = parts.drop_first();
    if parts.len() == 2 {
        assert(init =~= seq![parts[0]]);
        assert(rest =~= seq![parts[1]]);
        assert(join_names(init) == parts[0]);
        assert(join_names(rest) == parts[1]);
    } else {
        lemma_join_names_from_front(init);
        assert(init.drop_first() =~= rest.drop_last());
        assert(rest.last() == parts.last());
        assert(init[0] == parts[0]);
        assert(join_names(rest) == join_names(rest.drop_last()) + seq!['/'] + rest.last());
        assert(join_names(parts) =~= parts[0] + seq!['/'] + join_names(rest));
    }
}

/// Names that were joined are split into the same names.
proof fn lemma_split_undoes_join_names(parts: Seq<Seq<char>>)
    requires
        forall|i: int| 0 <= i < parts.len() ==> is_name(#[trigger] parts[i]),
    ensures
        split(join_names(parts)) == parts,
    decreases parts.len(),
{
    if parts.len() == 0 {
        assert(split(join_names(parts)) =~= parts);
    } else if parts.len() == 1 {
        lemma_split_after_name(parts[0], Seq::empty());
        assert(seq![parts[0]] =~= parts);
    } else {
        let rest = parts.drop_first();
        lemma_join_names_from_front(parts);
        assert forall|i: int| 0 <= i < rest.len() implies is_name(#[trigger] rest[i]) by {
            assert(rest[i] == parts[i + 1]);
        }
        lemma_split_undoes_join_names(rest);
        lemma_split_after_name(parts[0], join_names(rest));
        assert(seq![parts[0]] + rest =~= parts);
    }
}

/// A well-formed path is read back from its text: writing and reading lose
/// nothing.
pub proof fn law_parse_undoes_render(p: PathModel)
    requires
        p.well_formed(),
    ensures
        parse_text(render_text(p)) == p,
{
    let joined = join_names(p.parts);
    lemma_split_undoes_join_names(p.parts);
    if p.absolute {
        lemma_split_after_separator(joined);
        assert(render_text(p)[0] == '/');
    } else if p.parts.len() > 0 {
        assert(is_name(p.parts[0]));
        if p.parts.len() == 1 {
            assert(joined == p.parts[0]);
        } else {
            lemma_join_names_from_front(p.parts);
        }
        assert(joined[0] == p.parts[0][0]);
    }
}

/// Joining, stripping, taking the parent and naming the backup keep paths
/// well-formed.
pub proof fn law_operations_keep_well_formed(p: PathModel, q: PathModel)
    requires
        p.well_formed(),
        q.well_formed(),
    ensures
        p.join(q).well_formed(),
        p.with_bak().well_formed(),
        p.parent() matches Some(d) ==> d.well_formed(),
        p.strip_prefix(q) matches Some(r) ==> r.well_formed(),
{
    assert forall|i: int| 0 <= i < p.join(q).parts.len() implies is_name(
        #[trigger] p.join(q).parts[i],
    ) by {
        if !q.absolute {
            if i < p.parts.len() {
                assert(p.join(q).parts[i] == p.parts[i]);
            } else {
                assert(p.join(q).parts[i] == q.parts[i - p.parts.len()]);
            }
        }
    }
    let b = p.with_bak();
    assert forall|i: int| 0 <= i < b.parts.len() implies is_name(#[trigger] b.parts[i]) by {
        if p.parts.len() > 0 && i < p.parts.len() - 1 {
            assert(b.parts[i] == p.parts[i]);
        } else {
            let name = b.parts[i];
            if p.parts.len() > 0 {
                let last = p.parts.last();
                assert(is_name(last));
                assert(name == last + bak_suffix());
                assert forall|j: int| 0 <= j < name.len() implies name[j] != '/' by {
                    if j < last.len() {
                        assert(name[j] == last[j]);
                    }
                }
            }
            assert(name.len() >= 4);
        }
    }
    if p.parts.len() > 0 {
        let d = p.parent()->Some_0;
        assert forall|i: int| 0 <= i < d.parts.len() implies is_name(#[trigger] d.parts[i]) by {
            assert(d.parts[i] == p.parts[i]);
        }
    }
    if p.starts_with(q) {
        let r = p.strip_prefix(q)->Some_0;
        assert forall|i: int| 0 <= i < r.parts.len() implies is_name(#[trigger] r.parts[i]) by {
            assert(r.parts[i] == p.parts[i + q.parts.len()]);
        }
    }
}

} // verus!
