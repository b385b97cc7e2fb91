use vstd::prelude::*;
use vstd::std_specs::cmp::PartialEqSpec;

verus! {

/// The abstract value of a [`Command`]: its strings as character sequences,
/// its options as a set and its parameters as a map.
pub struct CommandView {
    pub prefix: char,
    pub option_prefix: char,
    pub name: Seq<char>,
    pub arguments: Seq<Seq<char>>,
    pub options: Set<Seq<char>>,
    pub parameters: Map<Seq<char>, Seq<char>>,
}

/// The character sequences of a list of strings, in order.
pub open spec fn string_seqs(v: Seq<String>) -> Seq<Seq<char>> {
    v.map_values(|s: String| s@)
}

/// The set of the character sequences in a list of strings.
pub open spec fn string_set(v: Seq<String>) -> Set<Seq<char>> {
    Set::new(|k: Seq<char>| exists|i: int| 0 <= i < v.len() && #[trigger] v[i]@ == k)
}

/// No two strings of the list hold the same characters.
pub open spec fn strings_distinct(v: Seq<String>) -> bool {
    forall|i: int, j: int| 0 <= i < v.len() && 0 <= j < v.len() && i != j ==> v[i]@ != v[j]@
}

/// No two pairs of the list have keys with the same characters.
pub open spec fn keys_distinct(v: Seq<(String, String)>) -> bool {
    forall|i: int, j: int| 0 <= i < v.len() && 0 <= j < v.len() && i != j ==> v[i].0@ != v[j].0@
}

/// The map from each key of a list of key/value pairs to its value.
pub open spec fn pair_map(v: Seq<(String, String)>) -> Map<Seq<char>, Seq<char>> {
    Map::new(
        |k: Seq<char>| exists|i: int| 0 <= i < v.len() && #[trigger] v[i].0@ == k,
        |k: Seq<char>| v[choose|i: int| 0 <= i < v.len() && #[trigger] v[i].0@ == k].1@,
    )
}

/// The set of the key/value pairs of a list, as character sequences.
pub open spec fn pair_set(v: Seq<(String, String)>) -> Set<(Seq<char>, Seq<char>)> {
    Set::new(
        |kv: (Seq<char>, Seq<char>)|
            exists|i: int| 0 <= i < v.len() && #[trigger] v[i].0@ == kv.0 && v[i].1@ == kv.1,
    )
}

/// A command line broken into its parts.
///
/// `options` stands for a set and `parameters` for a map: a command that
/// [`Parser::parse`](crate::Parser::parse) returns lists each flag once, in the
/// order of first appearance, and each key once, with the last value given for
/// it ([`Command::well_formed`]). Equality compares them as a set and as a
/// collection of pairs.
#[derive(Debug, Clone)]
pub struct Command {
    pub prefix: char,
    pub option_prefix: char,
    pub name: String,
    pub arguments: Vec<String>,
    pub options: Vec<String>,
    pub parameters: Vec<(String, String)>,
}

impl View for Command {
    type V = CommandView;

    open spec fn view(&self) -> CommandView {
        CommandView {
            prefix: self.prefix,
            option_prefix: self.option_prefix,
            name: self.name@,
            arguments: string_seqs(self.arguments@),
            options: string_set(self.options@),
            parameters: pair_map(self.parameters@),
        }
    }
}

impl Command {
    /// Options and parameter keys each appear once.
    pub open spec fn well_formed(&self) -> bool {
        strings_distinct(self.options@) && keys_distinct(self.parameters@)
    }

    pub fn new(
        prefix: char,
        option_prefix: char,
        name: String,
        arguments: Vec<String>,
        options: Vec<String>,
        parameters: Vec<(String, String)>,
    ) -> (r: Command)
        ensures
            r.prefix == prefix,
            r.option_prefix == option_prefix,
            r.name == name,
            r.arguments == arguments,
            r.options == options,
            r.parameters == parameters,
    {
        Command { prefix, option_prefix, name, arguments, options, parameters }
    }
}


/// The map of a list of pairs with distinct keys gives each pair's key its value.
pub proof fn lemma_pair_map_at(v: Seq<(String, String)>, i: int)
    requires
        keys_distinct(v),
        0 <= i < v.len(),
    ensures
        pair_map(v).contains_key(v[i].0@),
        pair_map(v)[v[i].0@] == v[i].1@,
{
    let k = v[i].0@;
    assert(pair_map(v).dom().contains(k));
    let j = choose|j: int| 0 <= j < v.len() && #[trigger] v[j].0@ == k;
    assert(j == i);
}

/// Adds `o` to a list of distinct options unless one with the same characters is there.
pub(crate) fn insert_option(options: &mut Vec<String>, o: String)
    requires
        strings_distinct(old(options)@),
    ensures
        strings_distinct(final(options)@),
        string_set(final(options)@) == string_set(old(options)@).insert(o@),
{
    let mut i: usize = 0;
    while i < options.len()
        invariant
            i <= options.len(),
            options@ == old(options)@,
            strings_distinct(options@),
            forall|j: int| 0 <= j < i ==> options@[j]@ != o@,
        decreases options.len() - i,
    {
        if options[i] == o {
            assert(string_set(options@).contains(o@));
            assert(string_set(options@).insert(o@) =~= string_set(options@));
            return;
        }
        i = i + 1;
    }
    let ghost before = options@;
    options.push(o);
    assert forall|x: Seq<char>| #[trigger]
        string_set(options@).contains(x) <==> string_set(before).insert(o@).contains(x) by {
        if string_set(before).contains(x) {
            let j = choose|j: int| 0 <= j < before.len() && #[trigger] before[j]@ == x;
            assert(options@[j]@ == x);
        }
        if x == o@ {
            assert(options@[before.len() as int]@ == x);
        }
        if string_set(options@).contains(x) {
            let j = choose|j: int| 0 <= j < options@.len() && #[trigger] options@[j]@ == x;
            if j < before.len() {
                assert(before[j]@ == x);
            }
        }
    }
    assert(string_set(options@) =~= string_set(before).insert(o@));
}

/// Gives key `k` the value `v` in a list of pairs with distinct keys, in place
/// where the key is there already, else at the end.
pub(crate) fn insert_parameter(parameters: &mut Vec<(String, String)>, k: String, v: String)
    requires
        keys_distinct(old(parameters)@),
    ensures
        keys_distinct(final(parameters)@),
        pair_map(final(parameters)@) == pair_map(old(parameters)@).insert(k@, v@),
{
    let ghost before = parameters@;
    let ghost kv = k@;
    let ghost vv = v@;
    let mut i: usize = 0;
    let mut found = false;
    while i < parameters.len() && !found
        invariant
            i <= parameters.len(),
            parameters@ == before,
            kv == k@,
            found ==> i < parameters.len() && parameters@[i as int].0@ == kv,
            forall|j: int| 0 <= j < i ==> parameters@[j].0@ != kv,
        decreases parameters.len() - i + (if found { 0int } else { 1int }),
    {
        let entry = &parameters[i];
        if entry.0 == k {
            found = true;
        } else {
            i = i + 1;
        }
    }
    if found {
        parameters[i] = (k, v);
    } else {
        parameters.push((k, v));
    }
    let ghost after = parameters@;
    assert(forall|j: int| 0 <= j < after.len() && j != i ==> after[j] == before[j]);
    assert(after[i as int].0@ == kv && after[i as int].1@ == vv);
    assert(keys_distinct(after));
    assert forall|x: Seq<char>| #[trigger]
        pair_map(after).contains_key(x) <==> pair_map(before).insert(kv, vv).contains_key(x) by {
        if pair_map(before).contains_key(x) {
            let j = choose|j: int| 0 <= j < before.len() && #[trigger] before[j].0@ == x;
            if j == i {
                assert(after[i as int].0@ == x);
            } else {
                assert(after[j].0@ == x);
            }
        }
        if x == kv {
            assert(after[i as int].0@ == x);
        }
        if pair_map(after).contains_key(x) {
            let j = choose|j: int| 0 <= j < after.len() && #[trigger] after[j].0@ == x;
            if j != i {
                assert(before[j].0@ == x);
            }
        }
    }
    assert forall|x: Seq<char>| #[trigger] pair_map(after).contains_key(x) implies
        pair_map(after)[x] == pair_map(before).insert(kv, vv)[x] by {
        let j = choose|j: int| 0 <= j < after.len() && #[trigger] after[j].0@ == x;
        lemma_pair_map_at(after, j);
        if j != i {
            lemma_pair_map_at(before, j);
        }
    }
    assert(pair_map(after) =~= pair_map(before).insert(kv, vv));
}


/// Whether `v` holds a string with the characters of `s`.
fn contains_string(v: &Vec<String>, s: &String) -> (r: bool)
    ensures
        r == string_set(v@).contains(s@),
{
    let mut i: usize = 0;
    while i < v.len()
        invariant
            i <= v.len(),
            forall|j: int| 0 <= j < i ==> v@[j]@ != s@,
        decreases v.len() - i,
    {
        if v[i] == *s {
            assert(v@[i as int]@ == s@);
            return true;
        }
        i = i + 1;
    }
    false
}

/// Whether every string of `a` has one with the same characters in `b`.
fn strings_within(a: &Vec<String>, b: &Vec<String>) -> (r: bool)
    ensures
        r == string_set(a@).subset_of(string_set(b@)),
{
    let mut i: usize = 0;
    while i < a.len()
        invariant
            i <= a.len(),
            forall|j: int| 0 <= j < i ==> string_set(b@).contains(#[trigger] a@[j]@),
        decreases a.len() - i,
    {
        if !contains_string(b, &a[i]) {
            assert(string_set(a@).contains(a@[i as int]@));
            return false;
        }
        i = i + 1;
    }
    true
}

/// Whether `v` holds the pair `(k, x)`, compared by characters.
fn contains_pair(v: &Vec<(String, String)>, k: &String, x: &String) -> (r: bool)
    ensures
        r == pair_set(v@).contains((k@, x@)),
{
    let mut i: usize = 0;
    while i < v.len()
        invariant
            i <= v.len(),
            forall|j: int| 0 <= j < i ==> !(v@[j].0@ == k@ && v@[j].1@ == x@),
        decreases v.len() - i,
    {
        let entry = &v[i];
        if entry.0 == *k && entry.1 == *x {
            assert(v@[i as int].0@ == k@ && v@[i as int].1@ == x@);
            return true;
        }
        i = i + 1;
    }
    assert(!pair_set(v@).contains((k@, x@)));
    false
}

/// Whether every pair of `a` is also in `b`, compared by characters.
fn pairs_within(a: &Vec<(String, String)>, b: &Vec<(String, String)>) -> (r: bool)
    ensures
        r == pair_set(a@).subset_of(pair_set(b@)),
{
    let mut i: usize = 0;
    while i < a.len()
        invariant
            i <= a.len(),
            forall|j: int|
                0 <= j < i ==> pair_set(b@).contains((#[trigger] a@[j].0@, a@[j].1@)),
        decreases a.len() - i,
    {
        let entry = &a[i];
        if !contains_pair(b, &entry.0, &entry.1) {
            assert(pair_set(a@).contains((a@[i as int].0@, a@[i as int].1@)));
            return false;
        }
        i = i + 1;
    }
    assert forall|kv: (Seq<char>, Seq<char>)| pair_set(a@).contains(kv) implies pair_set(
        b@,
    ).contains(kv) by {
        let j = choose|j: int| 0 <= j < a@.len() && #[trigger] a@[j].0@ == kv.0 && a@[j].1@ == kv.1;
        assert(pair_set(b@).contains((a@[j].0@, a@[j].1@)));
    }
    true
}

/// Whether the two lists hold strings with the same characters, in the same order.
fn same_strings(a: &Vec<String>, b: &Vec<String>) -> (r: bool)
    ensures
        r == (string_seqs(a@) == string_seqs(b@)),
{
    if a.len() != b.len() {
        assert(string_seqs(a@).len() != string_seqs(b@).len());
        return false;
    }
    let mut i: usize = 0;
    while i < a.len()
        invariant
            i <= a.len(),
            a.len() == b.len(),
            forall|j: int| 0 <= j < i ==> a@[j]@ == b@[j]@,
        decreases a.len() - i,
    {
        if a[i] != b[i] {
            assert(string_seqs(a@)[i as int] != string_seqs(b@)[i as int]);
            return false;
        }
        i = i + 1;
    }
    assert(string_seqs(a@) =~= string_seqs(b@));
    true
}

impl PartialEq for Command {
    /// Two commands are equal when their prefixes, names and arguments are
    /// equal, they hold the same options, and the same key/value pairs.
    fn eq(&self, other: &Command) -> (r: bool) {
        let r = self.prefix == other.prefix && self.option_prefix == other.option_prefix
            && self.name == other.name && same_strings(&self.arguments, &other.arguments)
            && strings_within(&self.options, &other.options) && strings_within(
            &other.options,
            &self.options,
        ) && pairs_within(&self.parameters, &other.parameters) && pairs_within(
            &other.parameters,
            &self.parameters,
        );
        assert(string_set(self.options@).subset_of(string_set(other.options@)) && string_set(
            other.options@,
        ).subset_of(string_set(self.options@)) ==> string_set(self.options@) =~= string_set(
            other.options@,
        ));
        assert(pair_set(self.parameters@).subset_of(pair_set(other.parameters@)) && pair_set(
            other.parameters@,
        ).subset_of(pair_set(self.parameters@)) ==> pair_set(self.parameters@) =~= pair_set(
            other.parameters@,
        ));
        r
    }
}

impl vstd::std_specs::cmp::PartialEqSpecImpl for Command {
    open spec fn obeys_eq_spec() -> bool {
        true
    }

    open spec fn eq_spec(&self, other: &Command) -> bool {
        &&& self.prefix == other.prefix
        &&& self.option_prefix == other.option_prefix
        &&& self.name@ == other.name@
        &&& string_seqs(self.arguments@) == string_seqs(other.arguments@)
        &&& string_set(self.options@) == string_set(other.options@)
        &&& pair_set(self.parameters@) == pair_set(other.parameters@)
    }
}

impl Eq for Command {

}


/// In a list with distinct keys, a pair is listed exactly when the map of
/// the list gives its key its value.
proof fn lemma_pair_set_is_map(v: Seq<(String, String)>, k: Seq<char>, x: Seq<char>)
    requires
        keys_distinct(v),
    ensures
        pair_set(v).contains((k, x)) <==> (pair_map(v).contains_key(k) && pair_map(v)[k] == x),
{
    if pair_set(v).contains((k, x)) {
        let i = choose|i: int| 0 <= i < v.len() && #[trigger] v[i].0@ == k && v[i].1@ == x;
        lemma_pair_map_at(v, i);
    }
    if pair_map(v).contains_key(k) {
        let j = choose|j: int| 0 <= j < v.len() && #[trigger] v[j].0@ == k;
        lemma_pair_map_at(v, j);
        if pair_map(v)[k] == x {
            assert(v[j].0@ == k && v[j].1@ == x);
        }
    }
}

/// For commands whose options and parameter keys are distinct, `==` holds
/// exactly when the two have the same abstract value.
pub proof fn lemma_eq_matches_view(a: Command, b: Command)
    requires
        a.well_formed(),
        b.well_formed(),
    ensures
        a.eq_spec(&b) <==> a@ == b@,
{
    let (sa, sb) = (pair_set(a.parameters@), pair_set(b.parameters@));
    let (ma, mb) = (pair_map(a.parameters@), pair_map(b.parameters@));
    if sa == sb {
        assert forall|k: Seq<char>| #[trigger] ma.contains_key(k) implies mb.contains_key(k)
            && mb[k] == ma[k] by {
            lemma_pair_set_is_map(a.parameters@, k, ma[k]);
            lemma_pair_set_is_map(b.parameters@, k, ma[k]);
        }
        assert forall|k: Seq<char>| #[trigger] mb.contains_key(k) implies ma.contains_key(k) by {
            lemma_pair_set_is_map(b.parameters@, k, mb[k]);
            lemma_pair_set_is_map(a.parameters@, k, mb[k]);
        }
        assert(ma =~= mb);
    }
    if ma == mb {
        assert forall|kv: (Seq<char>, Seq<char>)| sa.contains(kv) <==> sb.contains(kv) by {
            lemma_pair_set_is_map(a.parameters@, kv.0, kv.1);
            lemma_pair_set_is_map(b.parameters@, kv.0, kv.1);
        }
        assert(sa =~= sb);
    }
}

} // verus!
