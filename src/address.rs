use vstd::prelude::*;
use vstd::std_specs::cmp::PartialEqSpec;
use vstd::string::StringExecFns;

verus! {

broadcast use vstd::string::group_string_axioms;

/// Process-unique identity of an actor, assigned when its cell is created.
#[derive(Clone, Copy, Debug, PartialEq, Eq, Hash, Structural)]
pub struct ActorId(pub u64);

impl ActorId {
    /// The numeric identity.
    pub fn value(&self) -> (r: u64)
        ensures
            r == self.0,
    {
        self.0
    }

    /// The identity written in decimal.
    pub fn to_string(&self) -> (r: String)
        ensures
            r@ == decimal_of(self.0),
    {
        decimal_text(self.0)
    }
}

/// The decimal digits of `n`, most significant first.
pub open spec fn decimal_of(n: u64) -> Seq<char>
    decreases n,
{
    if n < 10 {
        seq![digit_char(n)]
    } else {
        decimal_of(n / 10).push(digit_char(n % 10))
    }
}

pub open spec fn digit_char(d: u64) -> char {
    if d == 0 { '0' }
    else if d == 1 { '1' }
    else if d == 2 { '2' }
    else if d == 3 { '3' }
    else if d == 4 { '4' }
    else if d == 5 { '5' }
    else if d == 6 { '6' }
    else if d == 7 { '7' }
    else if d == 8 { '8' }
    else { '9' }
}

/// The one-character text of a decimal digit.
fn digit_text(d: u64) -> (r: &'static str)
    requires
        d < 10,
    ensures
        r@ == seq![digit_char(d)],
{
    proof {
        reveal_strlit("0");
        reveal_strlit("1");
        reveal_strlit("2");
        reveal_strlit("3");
        reveal_strlit("4");
        reveal_strlit("5");
        reveal_strlit("6");
        reveal_strlit("7");
        reveal_strlit("8");
        reveal_strlit("9");
    }
    if d == 0 { "0" }
    else if d == 1 { "1" }
    else if d == 2 { "2" }
    else if d == 3 { "3" }
    else if d == 4 { "4" }
    else if d == 5 { "5" }
    else if d == 6 { "6" }
    else if d == 7 { "7" }
    else if d == 8 { "8" }
    else { "9" }
}

/// The decimal text of `n`.
fn decimal_text(n: u64) -> (r: String)
    ensures
        r@ == decimal_of(n),
    decreases n,
{
    if n < 10 {
        digit_text(n).to_string()
    } else {
        let mut s = decimal_text(n / 10);
        s.append(digit_text(n % 10));
        s
    }
}

/// The slash-joined text of a sequence of path segments: `"/a/b"` for `["a", "b"]`.
pub open spec fn joined(segments: Seq<Seq<char>>) -> Seq<char>
    decreases segments.len(),
{
    if segments.len() == 0 {
        Seq::empty()
    } else {
        joined(segments.drop_last()) + seq!['/'] + segments.last()
    }
}

/// The text of `prefix`, then one slash, then `name`.
fn slash_join(prefix: &str, name: &str) -> (r: String)
    ensures
        r@ == prefix@ + seq!['/'] + name@,
{
    proof {
        reveal_strlit("/");
    }
    let mut s = prefix.to_string();
    s.append("/");
    s.append(name);
    s
}

/// Hierarchical address of an actor: its name segments and their slash-joined text.
#[derive(Clone, Debug, Hash)]
pub struct ActorPath {
    segments: Vec<String>,
    full_path: String,
}

impl View for ActorPath {
    type V = Seq<Seq<char>>;

    closed spec fn view(&self) -> Seq<Seq<char>> {
        self.segments.deep_view()
    }
}

impl ActorPath {
    /// The cached text always matches the segments.
    pub closed spec fn wf(&self) -> bool {
        self.full_path@ == joined(self@)
    }

    /// The slash-joined text of the path.
    pub closed spec fn text(&self) -> Seq<char> {
        self.full_path@
    }

    pub proof fn lemma_text(&self)
        requires
            self.wf(),
        ensures
            self.text() == joined(self@),
    {
    }

    /// A single-segment path.
    pub fn root(name: &str) -> (r: Self)
        ensures
            r.wf(),
            r@ == seq![name@],
            r.text() == seq!['/'] + name@,
    {
        let mut segments: Vec<String> = Vec::new();
        segments.push(name.to_string());
        let full_path = slash_join("", name);
        let r = ActorPath { segments, full_path };
        proof {
            reveal_strlit("");
            assert(r@ =~= seq![name@]);
            assert(r@.drop_last() =~= Seq::<Seq<char>>::empty());
            assert(Seq::<char>::empty() + seq!['/'] + name@ =~= seq!['/'] + name@);
            assert(joined(r@) == joined(r@.drop_last()) + seq!['/'] + r@.last());
            assert(joined(r@.drop_last()) == Seq::<char>::empty());
        }
        r
    }

    /// The path of a child named `name`: one more segment.
    pub fn child(&self, name: &str) -> (r: Self)
        requires
            self.wf(),
        ensures
            r.wf(),
            r@ == self@.push(name@),
            r.text() == self.text() + seq!['/'] + name@,
    {
        let mut segments = self.segments.clone();
        proof {
            vstd::std_specs::vec::vec_clone_deep_view_proof(self.segments, segments);
        }
        segments.push(name.to_string());
        let full_path = slash_join(self.full_path.as_str(), name);
        let r = ActorPath { segments, full_path };
        proof {
            assert(r@ =~= self@.push(name@));
            assert(r@.drop_last() =~= self@);
        }
        r
    }

    /// An equal path.
    pub fn copy(&self) -> (r: Self)
        ensures
            r@ == self@,
            r.text() == self.text(),
            self.wf() ==> r.wf(),
    {
        let segments = self.segments.clone();
        proof {
            vstd::std_specs::vec::vec_clone_deep_view_proof(self.segments, segments);
        }
        ActorPath { segments, full_path: self.full_path.clone() }
    }

    /// The slash-joined text, e.g. `"/sys/a/b"`.
    pub fn as_str(&self) -> (r: &str)
        ensures
            r@ == self.text(),
    {
        self.full_path.as_str()
    }

    /// The segments.
    pub fn segments(&self) -> (r: &Vec<String>)
        ensures
            r.deep_view() == self@,
    {
        &self.segments
    }

    /// A copy of the segments.
    pub fn segments_copy(&self) -> (r: Vec<String>)
        ensures
            r.deep_view() == self@,
    {
        let r = self.segments.clone();
        proof {
            vstd::std_specs::vec::vec_clone_deep_view_proof(self.segments, r);
        }
        r
    }

    /// The number of segments.
    pub fn depth(&self) -> (r: usize)
        ensures
            r == self@.len(),
    {
        self.segments.len()
    }

    /// Segment-wise comparison.
    pub fn same_segments(&self, other: &ActorPath) -> (r: bool)
        ensures
            r == (self@ == other@),
    {
        if self.segments.len() != other.segments.len() {
            assert(self@.len() != other@.len());
            return false;
        }
        let mut i: usize = 0;
        while i < self.segments.len()
            invariant
                self.segments.len() == other.segments.len(),
                0 <= i <= self.segments.len(),
                forall|j: int| 0 <= j < i ==> self@[j] == other@[j],
            decreases self.segments.len() - i,
        {
            if self.segments[i] != other.segments[i] {
                assert(self@[i as int] != other@[i as int]);
                return false;
            }
            i = i + 1;
        }
        proof {
            assert(self@ =~= other@);
        }
        true
    }
}

impl PartialEq for ActorPath {
    fn eq(&self, other: &ActorPath) -> (r: bool) {
        self.same_segments(other)
    }
}

impl Eq for ActorPath {
}

impl vstd::std_specs::cmp::PartialEqSpecImpl for ActorPath {
    open spec fn obeys_eq_spec() -> bool {
        true
    }

    open spec fn eq_spec(&self, other: &ActorPath) -> bool {
        self@ == other@
    }
}

/// Two well-formed paths with the same segments have the same text: the segments
/// alone decide a path.
pub proof fn lemma_equal_segments_equal_path(a: &ActorPath, b: &ActorPath)
    requires
        a.wf(),
        b.wf(),
        a@ == b@,
    ensures
        a.text() == b.text(),
        a.eq_spec(b),
{
}

} // verus!
