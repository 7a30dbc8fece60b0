//! Connecting to a domain: its addresses are tried one after the other.

use crate::address::SocketAddr;
use crate::attempt::Step;
use crate::connector::Connector;
use crate::extension::Extensions;
use vstd::prelude::*;

verus! {

/// Why no address of a domain could be connected to.
#[derive(Debug)]
pub enum DomainError<E> {
    /// The domain could not be looked up, or the last address that was tried failed.
    Failed(E),
    /// The domain has no address. [`no_address_kind`] and [`no_address_message`] say what kind of
    /// error that is, and in which words.
    NoAddress,
}

/// The kind of an error that does not come from the caller.
#[derive(Clone, Copy, Debug, PartialEq, Eq)]
pub enum ErrorKind {
    /// The connection was given up.
    ConnectionAborted,
}

/// Of what kind the error is for a domain that has no address.
pub fn no_address_kind() -> (res: ErrorKind)
    ensures
        res == ErrorKind::ConnectionAborted,
{
    ErrorKind::ConnectionAborted
}

/// What is said of a domain that has no address.
pub fn no_address_message() -> (res: &'static str)
    ensures
        res@ == "Failed to connect to any resolved address"@,
{
    "Failed to connect to any resolved address"
}

/// What to do next to get a connection to a domain.
pub enum DomainStep<K, S, E> {
    /// Try an address of the domain, from this step on, and hand the outcome to
    /// [`DomainAttempt::tried`].
    Try(SocketAddr, Step<K, S, E>, DomainAttempt<E>),
    /// Return the stream or the error.
    Done(Result<S, DomainError<E>>),
}

/// The addresses of a domain that are left to try.
pub struct DomainAttempt<E> {
    connector: Connector,
    extention: Extensions,
    targets: Vec<SocketAddr>,
    next: usize,
    last_err: Option<E>,
}

/// What is left of an attempt to connect to a domain.
pub struct DomainState<E> {
    /// How each address is connected to.
    pub connector: Connector,
    /// What the client asked for.
    pub extention: Extensions,
    /// The addresses that were not tried yet, in order.
    pub remaining: Seq<SocketAddr>,
    /// The error of the last address that was tried.
    pub last_err: Option<E>,
}

impl<E> DomainState<E> {
    /// What is done in this state: the next address is tried, and once there is none left the
    /// last error is returned.
    pub open spec fn leads_to<K, S>(self, step: DomainStep<K, S, E>) -> bool {
        if self.remaining.len() > 0 {
            step matches DomainStep::Try(target, first, rest) && {
                &&& target == self.remaining.first()
                &&& first == self.connector.first_step::<K, S, E>(target, self.extention)
                &&& rest@ == DomainState { remaining: self.remaining.drop_first(), ..self }
            }
        } else {
            step == DomainStep::<K, S, E>::Done(
                match self.last_err {
                    Some(err) => Err(DomainError::Failed(err)),
                    None => Err(DomainError::NoAddress),
                },
            )
        }
    }

    /// What follows the attempt to connect to an address: a stream is returned, and an error is
    /// kept while the next address is tried.
    pub open spec fn after<K, S>(self, stream: Result<S, E>, step: DomainStep<K, S, E>) -> bool {
        match stream {
            Ok(stream) => step == DomainStep::<K, S, E>::Done(Ok(stream)),
            Err(err) => (DomainState { last_err: Some(err), ..self }).leads_to(step),
        }
    }
}

impl<E> View for DomainAttempt<E> {
    type V = DomainState<E>;

    closed spec fn view(&self) -> DomainState<E> {
        DomainState {
            connector: self.connector,
            extention: self.extention,
            remaining: self.targets@.skip(self.next as int),
            last_err: self.last_err,
        }
    }
}

impl<E> DomainAttempt<E> {
    /// No more addresses were tried than there are.
    #[verifier::type_invariant]
    spec fn wf(self) -> bool {
        self.next <= self.targets@.len()
    }

    /// Starts with all addresses of the domain.
    pub(crate) fn start<K, S>(
        connector: Connector,
        extention: Extensions,
        targets: Vec<SocketAddr>,
    ) -> (res: DomainStep<K, S, E>)
        ensures
            (DomainState { connector, extention, remaining: targets@, last_err: None::<E> }).leads_to(
                res,
            ),
    {
        let attempt: DomainAttempt<E> = DomainAttempt {
            connector,
            extention,
            targets,
            next: 0,
            last_err: None,
        };
        assert(attempt@.remaining =~= targets@);
        attempt.advance()
    }

    /// Goes on with the next address, if there is one.
    fn advance<K, S>(self) -> (res: DomainStep<K, S, E>)
        ensures
            self@.leads_to(res),
    {
        proof {
            use_type_invariant(&self);
        }
        let DomainAttempt { connector, extention, targets, next, last_err } = self;
        if next < targets.len() {
            let target: SocketAddr = targets[next];
            let rest: DomainAttempt<E> = DomainAttempt {
                connector,
                extention,
                targets,
                next: next + 1,
                last_err,
            };
            assert(rest@.remaining =~= self@.remaining.drop_first());
            DomainStep::Try(target, connector.try_connect(target, extention), rest)
        } else {
            match last_err {
                Some(err) => DomainStep::Done(Err(DomainError::Failed(err))),
                None => DomainStep::Done(Err(DomainError::NoAddress)),
            }
        }
    }

    /// Takes the stream, or the error, of the address that was tried, and says how to go on.
    pub fn tried<K, S>(self, stream: Result<S, E>) -> (res: DomainStep<K, S, E>)
        ensures
            self@.after(stream, res),
    {
        proof {
            use_type_invariant(&self);
        }
        match stream {
            Ok(stream) => DomainStep::Done(Ok(stream)),
            Err(err) => {
                let DomainAttempt { connector, extention, targets, next, last_err: _ } = self;
                let attempt: DomainAttempt<E> = DomainAttempt {
                    connector,
                    extention,
                    targets,
                    next,
                    last_err: Some(err),
                };
                attempt.advance()
            },
        }
    }
}

} // verus!
