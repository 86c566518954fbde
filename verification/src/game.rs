//! The guessing game: a secret value, the response to one guess, and the
//! course of a whole session of guesses.
//!
//! A `Game` owns one secret value, drawn once and never changed.  Each line
//! of input either fails to parse — a recoverable condition answered with
//! `NotANumber` — or yields a number that is compared against the secret.
//! Numbers outside the advertised range are not rejected: they go through
//! the same comparison as any other guess.

use crate::numeral::is_u32_numeral;
use crate::numeral::numeral_value;
use crate::numeral::parse_guess;
use vstd::prelude::*;

verus! {

/// Smallest value the secret can take.
pub const SECRET_MIN: u32 = 1;

/// Largest value the secret can take.
pub const SECRET_MAX: u32 = 5;

/// The answer to one line of input.
#[derive(Clone, Copy, Debug, PartialEq, Eq, Structural)]
pub enum Response {
    /// The line did not parse as an unsigned number; the game goes on.
    NotANumber,
    /// The guess is below the secret; the game goes on.
    TooSmall,
    /// The guess is above the secret; the game goes on.
    TooBig,
    /// The guess equals the secret, which the response carries; the game ends.
    Win(u32),
}

/// How a parsed guess is answered: strictly by its order against the secret.
pub open spec fn compare_response(secret: u32, guess: u32) -> Response {
    if guess > secret {
        Response::TooBig
    } else if guess < secret {
        Response::TooSmall
    } else {
        Response::Win(secret)
    }
}

/// How one raw input line is answered: lines that are no numeral are
/// `NotANumber`; all others are compared against the secret.
pub open spec fn response_of(secret: u32, input: Seq<u8>) -> Response {
    if !is_u32_numeral(input) {
        Response::NotANumber
    } else {
        compare_response(secret, numeral_value(input) as u32)
    }
}

/// The responses a session gives to `inputs`, in order, stopping after the
/// first winning guess.
pub open spec fn session_responses(secret: u32, inputs: Seq<Seq<u8>>) -> Seq<Response>
    decreases inputs.len(),
{
    if inputs.len() == 0 {
        Seq::empty()
    } else {
        let r = response_of(secret, inputs.first());
        if r is Win {
            seq![r]
        } else {
            seq![r] + session_responses(secret, inputs.drop_first())
        }
    }
}

/// Whether some input of the session wins the game.
pub open spec fn session_won(secret: u32, inputs: Seq<Seq<u8>>) -> bool
    decreases inputs.len(),
{
    if inputs.len() == 0 {
        false
    } else if response_of(secret, inputs.first()) is Win {
        true
    } else {
        session_won(secret, inputs.drop_first())
    }
}

/// A guess is answered by its order against the secret alone: above the
/// secret it is `TooBig`, below it `TooSmall`, and equal to it `Win`
/// carrying the secret itself.
pub proof fn lemma_guess_ordering(secret: u32, guess: u32)
    requires
        SECRET_MIN <= secret <= SECRET_MAX,
    ensures
        guess > secret ==> compare_response(secret, guess) == Response::TooBig,
        guess < secret ==> compare_response(secret, guess) == Response::TooSmall,
        guess == secret ==> compare_response(secret, guess) == Response::Win(secret),
{
}

/// Input that is no numeral is answered `NotANumber`, whatever the secret,
/// and never wins the game.
pub proof fn lemma_invalid_input_rejected(secret: u32, input: Seq<u8>)
    requires
        !is_u32_numeral(input),
    ensures
        response_of(secret, input) == Response::NotANumber,
        forall|w: u32| response_of(secret, input) != Response::Win(w),
{
}

/// Retrying on bad input is idempotent: a session fed any number of
/// non-numeral lines (none included) answers every one of them with
/// `NotANumber` and never wins — and the secret itself is untouched, since
/// answering a guess never alters the game.
pub proof fn lemma_retries_never_win(secret: u32, inputs: Seq<Seq<u8>>)
    requires
        forall|k: int| 0 <= k < inputs.len() ==> !is_u32_numeral(#[trigger] inputs[k]),
    ensures
        !session_won(secret, inputs),
        session_responses(secret, inputs) =~= Seq::new(
            inputs.len(),
            |k: int| Response::NotANumber,
        ),
    decreases inputs.len(),
{
    if inputs.len() > 0 {
        assert(!is_u32_numeral(inputs[0]));
        assert(forall|k: int|
            0 <= k < inputs.drop_first().len() ==> !is_u32_numeral(
                #[trigger] inputs.drop_first()[k],
            ));
        lemma_retries_never_win(secret, inputs.drop_first());
    }
}

/// The bounds of the advertised range get no special treatment: two
/// guesses that stand in the same order to their secrets — either may be 1,
/// 5, or anything between — draw the same kind of response.
pub proof fn lemma_no_boundary_case(s1: u32, g1: u32, s2: u32, g2: u32)
    requires
        SECRET_MIN <= s1 <= SECRET_MAX,
        SECRET_MIN <= s2 <= SECRET_MAX,
        (g1 > s1) == (g2 > s2),
        (g1 < s1) == (g2 < s2),
    ensures
        (compare_response(s1, g1) is TooBig) == (compare_response(s2, g2) is TooBig),
        (compare_response(s1, g1) is TooSmall) == (compare_response(s2, g2) is TooSmall),
        (compare_response(s1, g1) is Win) == (compare_response(s2, g2) is Win),
{
}

/// A line that parses is compared like any other number, however far
/// outside the advertised range its value lies: the response is the plain
/// comparison against the secret and never `NotANumber`.
pub proof fn lemma_numeral_compared_normally(secret: u32, input: Seq<u8>)
    requires
        SECRET_MIN <= secret <= SECRET_MAX,
        is_u32_numeral(input),
    ensures
        response_of(secret, input) == compare_response(secret, numeral_value(input) as u32),
        response_of(secret, input) != Response::NotANumber,
{
}

/// Relies on rand::random_range: a value drawn from the given inclusive
/// range, so the result lies between the two bounds.  The draw is random,
/// so nothing more is promised of it.
#[verifier::external_body]
fn draw_secret() -> (r: u32)
    ensures
        SECRET_MIN <= r <= SECRET_MAX,
{
    rand::random_range(SECRET_MIN..=SECRET_MAX)
}

/// One game: a single secret value, fixed for the whole session.
#[derive(Clone, Copy, Debug)]
pub struct Game {
    secret: u32,
}

impl Game {
    /// The secret value, for specification purposes.
    pub closed spec fn secret_spec(&self) -> u32 {
        self.secret
    }

    /// The secret lies in the advertised range.
    pub open spec fn wf(&self) -> bool {
        SECRET_MIN <= self.secret_spec() <= SECRET_MAX
    }

    /// Start a game with a freshly drawn secret value.
    pub fn new() -> (g: Game)
        ensures
            g.wf(),
    {
        Game { secret: draw_secret() }
    }

    /// Start a game with a chosen secret value.
    pub fn with_secret(secret: u32) -> (g: Game)
        requires
            SECRET_MIN <= secret <= SECRET_MAX,
        ensures
            g.wf(),
            g.secret_spec() == secret,
    {
        Game { secret }
    }

    /// The secret value.
    pub fn secret(&self) -> (s: u32)
        ensures
            s == self.secret_spec(),
    {
        self.secret
    }

    /// Answer one line of input.
    pub fn guess(&self, input: &[u8]) -> (r: Response)
        ensures
            r == response_of(self.secret_spec(), input@),
    {
        match parse_guess(input) {
            None => Response::NotANumber,
            Some(g) => {
                if g > self.secret {
                    Response::TooBig
                } else if g < self.secret {
                    Response::TooSmall
                } else {
                    Response::Win(self.secret)
                }
            },
        }
    }

    /// Run a whole session against a fixed list of input lines: answer each
    /// line in order until a guess wins or the lines run out.  Returns the
    /// responses given and whether the game was won.
    pub fn play(&self, inputs: &Vec<Vec<u8>>) -> (r: (Vec<Response>, bool))
        ensures
            r.0@ == session_responses(self.secret_spec(), inputs.deep_view()),
            r.1 == session_won(self.secret_spec(), inputs.deep_view()),
    {
        let ghost ivs = inputs.deep_view();
        let ghost s = self.secret_spec();
        let mut out: Vec<Response> = Vec::new();
        let mut won: bool = false;
        let mut i: usize = 0;
        proof {
            assert(ivs.skip(0) =~= ivs);
        }
        while i < inputs.len() && !won
            invariant
                0 <= i <= inputs.len(),
                s == self.secret_spec(),
                ivs == inputs.deep_view(),
                ivs.len() == inputs.len(),
                !won ==> session_responses(s, ivs) == out@ + session_responses(
                    s,
                    ivs.skip(i as int),
                ),
                !won ==> session_won(s, ivs) == session_won(s, ivs.skip(i as int)),
                won ==> out@ == session_responses(s, ivs) && session_won(s, ivs),
            decreases inputs.len() - i,
        {
            let r = self.guess(inputs[i].as_slice());
            let ghost out_prev = out@;
            let ghost rest = ivs.skip(i as int);
            proof {
                assert(rest.first() == ivs[i as int]);
                assert(ivs[i as int] == inputs@[i as int].deep_view());
                assert(inputs@[i as int].deep_view() =~= inputs@[i as int]@);
                assert(rest.drop_first() =~= ivs.skip(i as int + 1));
            }
            out.push(r);
            if let Response::Win(_) = r {
                won = true;
                proof {
                    assert(session_responses(s, rest) =~= seq![r]);
                    assert(out_prev + session_responses(s, rest) =~= out@);
                }
            } else {
                proof {
                    assert(session_responses(s, rest) == seq![r] + session_responses(
                        s,
                        rest.drop_first(),
                    ));
                    assert(out_prev + (seq![r] + session_responses(s, rest.drop_first()))
                        =~= out@ + session_responses(s, ivs.skip(i as int + 1)));
                }
            }
            i = i + 1;
        }
        proof {
            if !won {
                assert(ivs.skip(i as int) =~= Seq::<Seq<u8>>::empty());
                assert(out@ + session_responses(s, ivs.skip(i as int)) =~= out@);
            }
        }
        (out, won)
    }
}

} // verus!
