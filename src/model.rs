use vstd::prelude::*;
use vstd::string::*;

verus! {

/// Whether two texts hold the same characters.
pub fn same_text(a: &str, b: &str) -> (r: bool)
    ensures
        r == (a@ == b@),
{
    let n = a.unicode_len();
    if n != b.unicode_len() {
        return false;
    }
    for i in 0..n
        invariant
            n == a@.len(),
            n == b@.len(),
            forall|j: int| 0 <= j < i ==> a@[j] == b@[j],
    {
        if a.get_char(i) != b.get_char(i) {
            return false;
        }
    }
    assert(a@ =~= b@);
    true
}

/// The role the generation service expects for a message's sender: `model`
/// for `LLM`, `user` for anyone else.
pub fn sender_to_role(sender: &str) -> (r: &'static str)
    ensures
        sender@ == seq!['L', 'L', 'M'] ==> r@ == seq!['m', 'o', 'd', 'e', 'l'],
        sender@ != seq!['L', 'L', 'M'] ==> r@ == seq!['u', 's', 'e', 'r'],
{
    proof {
        reveal_strlit("LLM");
        reveal_strlit("model");
        reveal_strlit("user");
    }
    let llm = "LLM";
    assert(llm@ =~= seq!['L', 'L', 'M']);
    if same_text(sender, llm) {
        let r = "model";
        assert(r@ =~= seq!['m', 'o', 'd', 'e', 'l']);
        r
    } else {
        let r = "user";
        assert(r@ =~= seq!['u', 's', 'e', 'r']);
        r
    }
}

} // verus!
