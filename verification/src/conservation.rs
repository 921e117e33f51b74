use crate::bootstrap::{exit_spec, join_spec, Bootstrap};
use crate::deposits::{amount_of, lemma_with_deposit, total_of, with_deposit, DepositEntry};
use crate::types::Address;
use vstd::prelude::*;

verus! {

/// A joiner's request while a bootstrap is active.
#[derive(Clone, Copy, PartialEq, Eq, Structural, Debug)]
pub enum Movement {
    Join { from: Address, amount: i128 },
    Exit { from: Address, amount: i128 },
}

/// A bootstrap with the deposit entries of the contract, and the net amount of
/// pair tokens that the requests replayed so far have brought in.
pub struct Books {
    pub bootstrap: Bootstrap,
    pub deposits: Seq<DepositEntry>,
    pub net: int,
}

/// The books after one request: a request that is granted moves its amount
/// into or out of the bootstrap's balances and the joiner's deposit, one that
/// is refused changes nothing.
pub open spec fn moved(books: Books, m: Movement) -> Books {
    match m {
        Movement::Join { from, amount } => match join_spec(
            books.bootstrap,
            amount_of(books.deposits, books.bootstrap.id, from),
            amount,
        ) {
            Ok((data, deposit)) => Books {
                bootstrap: Bootstrap { data, ..books.bootstrap },
                deposits: with_deposit(books.deposits, books.bootstrap.id, from, deposit),
                net: books.net + amount,
            },
            Err(_) => books,
        },
        Movement::Exit { from, amount } => match exit_spec(
            books.bootstrap,
            amount_of(books.deposits, books.bootstrap.id, from),
            amount,
        ) {
            Ok((data, deposit)) => Books {
                bootstrap: Bootstrap { data, ..books.bootstrap },
                deposits: with_deposit(books.deposits, books.bootstrap.id, from, deposit),
                net: books.net - amount,
            },
            Err(_) => books,
        },
    }
}

/// The books after a sequence of requests, one after the other.
pub open spec fn replayed(books: Books, requests: Seq<Movement>) -> Books
    decreases requests.len(),
{
    if requests.len() == 0 {
        books
    } else {
        moved(replayed(books, requests.drop_last()), requests.last())
    }
}

/// Whether the books balance: the deposits of the bootstrap add up to its
/// total of pair tokens, all of which it holds.
pub open spec fn balanced(books: Books) -> bool {
    &&& total_of(books.deposits, books.bootstrap.id) == books.bootstrap.data.total_pair
    &&& books.bootstrap.data.pair_amount == books.bootstrap.data.total_pair
}

/// One request keeps balanced books balanced, and moves the total of pair
/// tokens by the amount that it brought in or took out, if it was granted.
pub proof fn lemma_moved_conserves(books: Books, m: Movement)
    requires
        balanced(books),
    ensures
        balanced(moved(books, m)),
        moved(books, m).bootstrap.data.total_pair - books.bootstrap.data.total_pair == moved(
            books,
            m,
        ).net - books.net,
        moved(books, m).bootstrap.id == books.bootstrap.id,
        moved(books, m).bootstrap.status == books.bootstrap.status,
        moved(books, m).bootstrap.config == books.bootstrap.config,
{
    match m {
        Movement::Join { from, amount } => {
            match join_spec(
                books.bootstrap,
                amount_of(books.deposits, books.bootstrap.id, from),
                amount,
            ) {
                Ok((data, deposit)) => {
                    lemma_with_deposit(books.deposits, books.bootstrap.id, from, deposit);
                },
                Err(_) => {},
            }
        },
        Movement::Exit { from, amount } => {
            match exit_spec(
                books.bootstrap,
                amount_of(books.deposits, books.bootstrap.id, from),
                amount,
            ) {
                Ok((data, deposit)) => {
                    lemma_with_deposit(books.deposits, books.bootstrap.id, from, deposit);
                },
                Err(_) => {},
            }
        },
    }
}

/// Pair tokens are conserved: after any sequence of joins and exits on books
/// that balance, the deposits of all joiners still add up to the bootstrap's
/// total of pair tokens, and that total has moved by exactly what the granted
/// joins brought in less what the granted exits took out. For a bootstrap
/// that was opened with nothing deposited, the total is the sum of its joins
/// less its exits.
pub proof fn lemma_conservation(books: Books, requests: Seq<Movement>)
    requires
        balanced(books),
    ensures
        balanced(replayed(books, requests)),
        replayed(books, requests).bootstrap.data.total_pair == books.bootstrap.data.total_pair
            + replayed(books, requests).net - books.net,
        replayed(books, requests).bootstrap.id == books.bootstrap.id,
        replayed(books, requests).bootstrap.status == books.bootstrap.status,
        replayed(books, requests).bootstrap.config == books.bootstrap.config,
    decreases requests.len(),
{
    if requests.len() > 0 {
        lemma_conservation(books, requests.drop_last());
        lemma_moved_conserves(replayed(books, requests.drop_last()), requests.last());
    }
}

} // verus!
