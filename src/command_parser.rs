//! The command registry: definitions whose name and response agree on their placeholders.
use vstd::prelude::*;
use crate::text::{chars_of, same_text};

verus! {

/// One command definition as configured: the name (whose first word is the token), the
/// response template, the cooldown in seconds written as text, and the scope (`user` or
/// `global`).
pub struct Command {
    pub name: String,
    pub response: String,
    pub cooldown_in_s: String,
    pub cooldown_scope: String,
}

/// The registry of command definitions, each of which has matching placeholders.
pub struct Commands(Vec<Command>);

/// The texts of a sequence of strings.
pub open spec fn texts(v: Seq<String>) -> Seq<Seq<char>> {
    v.map_values(|x: String| x@)
}

/// The names of the `{word}` placeholders of a text, left to right, as the pattern
/// `\{(\w+)\}` finds them.
pub uninterp spec fn placeholders_in(s: Seq<char>) -> Seq<Seq<char>>;

/// Relies on `regex::Regex::captures_iter` with the pattern `\{(\w+)\}`: the text of the first
/// group of each match, left to right; the result depends on the text alone.
#[verifier::external_body]
fn placeholder_names(s: &str) -> (r: Vec<String>)
    ensures
        texts(r@) == placeholders_in(s@),
{
    let re = regex::Regex::new(r"\{(\w+)\}").unwrap();
    re.captures_iter(s).map(|c| c[1].to_string()).collect()
}

/// The placeholder names other than the reserved `sender`, in order.
pub open spec fn without_sender(ps: Seq<Seq<char>>) -> Seq<Seq<char>>
    decreases ps.len(),
{
    if ps.len() == 0 {
        Seq::empty()
    } else {
        let r = without_sender(ps.drop_last());
        if ps.last() == "sender"@ {
            r
        } else {
            r.push(ps.last())
        }
    }
}

/// The placeholders of a text that the parameters of a trigger fill, in order.
pub open spec fn named_placeholders(s: Seq<char>) -> Seq<Seq<char>> {
    without_sender(placeholders_in(s))
}

/// Whether a definition's name and response name the same placeholders, `sender` aside.
pub open spec fn placeholders_agree(c: Command) -> bool {
    named_placeholders(c.name@).to_set() == named_placeholders(c.response@).to_set()
}

/// The message that reports a definition whose placeholders disagree.
pub open spec fn mismatch_message(name: Seq<char>) -> Seq<char> {
    "Placeholder mismatch in command '"@ + name + "'"@
}

/// The position of the first definition whose placeholders disagree, or -1.
pub open spec fn first_mismatch(cs: Seq<Command>) -> int
    decreases cs.len(),
{
    if cs.len() == 0 {
        -1
    } else {
        let r = first_mismatch(cs.drop_last());
        if r >= 0 {
            r
        } else if !placeholders_agree(cs.last()) {
            cs.len() - 1
        } else {
            -1
        }
    }
}

/// The placeholders of `s` other than `sender`, in order.
pub fn placeholders_without_sender(s: &str) -> (r: Vec<String>)
    ensures
        texts(r@) == named_placeholders(s@),
{
    let all = placeholder_names(s);
    let mut out: Vec<String> = Vec::new();
    let mut i: usize = 0;
    while i < all.len()
        invariant
            i <= all@.len(),
            texts(all@) == placeholders_in(s@),
            texts(out@) == without_sender(texts(all@).take(i as int)),
        decreases all@.len() - i,
    {
        let ghost ps = texts(all@).take(i + 1);
        assert(ps.drop_last() =~= texts(all@).take(i as int));
        assert(ps.last() == all@[i as int]@);
        let p = &all[i];
        if !same_text(&chars_of(p.as_str()), "sender") {
            let ghost before = texts(out@);
            out.push(p.clone());
            assert(texts(out@) =~= before.push(p@));
        }
        i += 1;
    }
    assert(texts(all@).take(i as int) =~= texts(all@));
    out
}

/// Whether `v` holds a string with the same text as `x`.
fn holds_text(v: &Vec<String>, x: &String) -> (r: bool)
    ensures
        r == texts(v@).contains(x@),
{
    let mut i: usize = 0;
    while i < v.len()
        invariant
            i <= v@.len(),
            forall|j: int| 0 <= j < i ==> v@[j]@ != x@,
        decreases v@.len() - i,
    {
        if v[i] == *x {
            assert(texts(v@)[i as int] == x@);
            return true;
        }
        i += 1;
    }
    assert forall|j: int| 0 <= j < texts(v@).len() implies texts(v@)[j] != x@ by {
        assert(texts(v@)[j] == v@[j]@);
    }
    false
}

/// Whether every text of `a` occurs in `b`.
fn all_held(a: &Vec<String>, b: &Vec<String>) -> (r: bool)
    ensures
        r == (forall|x: Seq<char>| texts(a@).contains(x) ==> texts(b@).contains(x)),
{
    let mut i: usize = 0;
    while i < a.len()
        invariant
            i <= a@.len(),
            forall|j: int| 0 <= j < i ==> texts(b@).contains(#[trigger] a@[j]@),
        decreases a@.len() - i,
    {
        if !holds_text(b, &a[i]) {
            assert(texts(a@)[i as int] == a@[i as int]@);
            return false;
        }
        i += 1;
    }
    assert forall|x: Seq<char>| texts(a@).contains(x) implies texts(b@).contains(x) by {
        let j = choose|j: int| 0 <= j < texts(a@).len() && texts(a@)[j] == x;
        assert(texts(a@)[j] == a@[j]@);
    }
    true
}

/// Checks that a definition's name and response name the same placeholders, `sender` aside.
pub fn validate_command_placeholders(command: &Command) -> (r: Result<(), String>)
    ensures
        r is Ok <==> placeholders_agree(*command),
        r matches Err(e) ==> e@ == mismatch_message(command.name@),
{
    let name_ps = placeholders_without_sender(command.name.as_str());
    let response_ps = placeholders_without_sender(command.response.as_str());
    let agree = all_held(&name_ps, &response_ps) && all_held(&response_ps, &name_ps);
    let ghost a = texts(name_ps@).to_set();
    let ghost b = texts(response_ps@).to_set();
    if agree {
        assert(a =~= b);
        Ok(())
    } else {
        proof {
            if a == b {
                assert forall|x: Seq<char>|
                    texts(name_ps@).contains(x) implies texts(response_ps@).contains(x) by {
                    assert(a.contains(x));
                }
                assert forall|x: Seq<char>|
                    texts(response_ps@).contains(x) implies texts(name_ps@).contains(x) by {
                    assert(b.contains(x));
                }
            }
        }
        let mut e = String::from_str("Placeholder mismatch in command '");
        e.append(command.name.as_str());
        e.append("'");
        Err(e)
    }
}

impl View for Commands {
    type V = Seq<Command>;

    closed spec fn view(&self) -> Seq<Command> {
        self.0@
    }
}

impl Commands {
    /// Builds the registry from definitions in order; fails on the first definition whose
    /// placeholders disagree, with that definition's mismatch message.
    pub fn new(commands: Vec<Command>) -> (r: Result<Commands, String>)
        ensures
            r is Ok <==> first_mismatch(commands@) < 0,
            r matches Ok(c) ==> c@ == commands@,
            r matches Ok(c) ==> forall|i: int| 0 <= i < c@.len() ==> placeholders_agree(#[trigger] c@[i]),
            r is Err ==> exists|i: int| 0 <= i < commands@.len() && !placeholders_agree(#[trigger] commands@[i]),
            r matches Err(e) ==> e@ == mismatch_message(commands@[first_mismatch(commands@)].name@),
    {
        let mut i: usize = 0;
        while i < commands.len()
            invariant
                i <= commands@.len(),
                first_mismatch(commands@.take(i as int)) < 0,
            decreases commands@.len() - i,
        {
            let ghost p = commands@.take(i + 1);
            assert(p.drop_last() =~= commands@.take(i as int));
            match validate_command_placeholders(&commands[i]) {
                Ok(()) => {},
                Err(e) => {
                    proof {
                        lemma_first_mismatch_prefix(commands@, i as int + 1);
                        lemma_no_mismatch(commands@);
                    }
                    return Err(e);
                },
            }
            i += 1;
        }
        assert(commands@.take(i as int) =~= commands@);
        proof {
            lemma_no_mismatch(commands@);
        }
        Ok(Commands(commands))
    }

    /// The definitions, in order.
    pub fn get(&self) -> (r: &Vec<Command>)
        ensures
            r@ == self@,
    {
        &self.0
    }
}

/// No mismatch means every definition agrees; a mismatch names a definition that disagrees.
proof fn lemma_no_mismatch(cs: Seq<Command>)
    ensures
        first_mismatch(cs) < 0 ==> forall|i: int| 0 <= i < cs.len() ==> placeholders_agree(#[trigger] cs[i]),
        first_mismatch(cs) >= 0 ==> 0 <= first_mismatch(cs) < cs.len() && !placeholders_agree(cs[first_mismatch(cs)]),
    decreases cs.len(),
{
    if cs.len() > 0 {
        lemma_no_mismatch(cs.drop_last());
        assert forall|i: int| 0 <= i < cs.len() - 1 implies cs[i] == cs.drop_last()[i] by {}
    }
}

/// A mismatch found in a prefix is the first mismatch of the whole sequence.
proof fn lemma_first_mismatch_prefix(cs: Seq<Command>, k: int)
    requires
        0 <= k <= cs.len(),
        first_mismatch(cs.take(k)) >= 0,
    ensures
        first_mismatch(cs) == first_mismatch(cs.take(k)),
    decreases cs.len() - k,
{
    if k < cs.len() {
        assert(cs.take(k + 1).drop_last() =~= cs.take(k));
        lemma_first_mismatch_prefix(cs, k + 1);
    } else {
        assert(cs.take(k) =~= cs);
    }
}

} // verus!
