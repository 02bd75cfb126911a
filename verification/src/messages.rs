//! The remarks with which the machine accompanies its moves.

use vstd::prelude::*;
use rand::Rng;

verus! {

/// Number of remarks that the machine can make.
pub const NUM_OF_MESSAGES: usize = 8;

/// The remarks of the machine, in their order.
pub open spec fn ia_messages() -> Seq<Seq<char>> {
    seq![
        "A IA está pensando..."@,
        "Essa ia ser a minha jogada, e agora..."@,
        "Por essa eu não esperava, mas posso fazer isso..."@,
        "Não estrague os meus planos..."@,
        "Com essa estrategia eu vou ganhar..."@,
        "Se fosse truco, eu ja tinha ganhado..."@,
        "Comecou mal e agora parece o comeco..."@,
        "Está jogando vendado?"@,
    ]
}

/// The remark with the index `index`.
pub fn ia_message(index: usize) -> (message: &'static str)
    requires
        index < NUM_OF_MESSAGES,
    ensures
        message@ == ia_messages()[index as int],
{
    let messages: [&'static str; NUM_OF_MESSAGES] = [
        "A IA está pensando...",
        "Essa ia ser a minha jogada, e agora...",
        "Por essa eu não esperava, mas posso fazer isso...",
        "Não estrague os meus planos...",
        "Com essa estrategia eu vou ganhar...",
        "Se fosse truco, eu ja tinha ganhado...",
        "Comecou mal e agora parece o comeco...",
        "Está jogando vendado?",
    ];
    messages[index]
}

/// A number below `bound`, drawn by rand's `gen_range` from the generator
/// that `thread_rng` keeps for the calling thread. Taken on trust: the
/// number lies in the range `0..bound`. Which number comes is left open, and
/// two calls may differ. `gen_range` panics on an empty range, so `bound`
/// must not be 0.
#[verifier::external_body]
fn random_below(bound: usize) -> (drawn: usize)
    requires
        bound > 0,
    ensures
        drawn < bound,
{
    rand::thread_rng().gen_range(0..bound)
}

/// One of the machine's remarks, drawn at random.
pub fn get_ia_message() -> (message: &'static str)
    ensures
        exists|i: int| 0 <= i < NUM_OF_MESSAGES && message@ == #[trigger] ia_messages()[i],
{
    let random_number = random_below(NUM_OF_MESSAGES);
    return ia_message(random_number);
}

} // verus!
