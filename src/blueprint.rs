//! Splitting a stored record stream into the blueprint's events and its
//! activation directive.
use vstd::prelude::*;

verus! {

/// One record of a stored stream, as the decoder gave it.
pub enum Decoded<E, A> {
    /// An ordinary event.
    Event(E),
    /// The directive that makes the blueprint take effect.
    Activation(A),
    /// A record that could not be decoded.
    Malformed,
}

#[derive(Clone, Copy, Debug, PartialEq, Eq, Structural)]
pub enum BlueprintError {
    /// The stored stream does not exist.
    SourceNotFound,
    /// The stream holds no activation directive.
    MissingActivation,
    /// The stream holds more than one activation directive.
    MultipleActivations,
}

/// The ordinary events of a record stream, in order.
pub open spec fn events_of<E, A>(records: Seq<Decoded<E, A>>) -> Seq<E>
    decreases records.len(),
{
    if records.len() == 0 {
        Seq::empty()
    } else {
        let rest = events_of(records.drop_first());
        match records[0] {
            Decoded::Event(e) => seq![e] + rest,
            _ => rest,
        }
    }
}

/// How many activation directives a record stream holds.
pub open spec fn activation_count<E, A>(records: Seq<Decoded<E, A>>) -> nat
    decreases records.len(),
{
    if records.len() == 0 {
        0
    } else {
        activation_count(records.drop_first()) + if records[0] is Activation { 1nat } else { 0nat }
    }
}

/// The last activation directive of a record stream, if any.
pub open spec fn last_activation<E, A>(records: Seq<Decoded<E, A>>) -> Option<A>
    decreases records.len(),
{
    if records.len() == 0 {
        None
    } else {
        match last_activation(records.drop_first()) {
            Some(a) => Some(a),
            None => match records[0] {
                Decoded::Activation(a) => Some(a),
                _ => None,
            },
        }
    }
}

/// Splits a stored stream (`None` when it does not exist) into its ordinary
/// events, in order, and its one activation directive; malformed records are
/// passed over. A stream with no directive, or with more than one, is refused.
pub fn split_blueprint<E, A>(source: Option<Vec<Decoded<E, A>>>) -> (r: Result<(Vec<E>, A), BlueprintError>)
    ensures
        source is None ==> r == Err::<(Vec<E>, A), BlueprintError>(BlueprintError::SourceNotFound),
        source matches Some(s) ==> (if activation_count(s@) == 0 {
            r == Err::<(Vec<E>, A), BlueprintError>(BlueprintError::MissingActivation)
        } else if activation_count(s@) > 1 {
            r == Err::<(Vec<E>, A), BlueprintError>(BlueprintError::MultipleActivations)
        } else {
            r matches Ok(p) && p.0@ == events_of(s@) && last_activation(s@) == Some(p.1)
        }),
{
    let mut records = match source {
        None => return Err(BlueprintError::SourceNotFound),
        Some(s) => s,
    };
    let ghost all = records@;
    let total: usize = records.len();
    let mut messages: Vec<E> = Vec::new();
    let mut activation_command: Option<A> = None;
    let mut seen: usize = 0;
    while records.len() > 0
        invariant
            events_of(all) == messages@ + events_of(records@),
            last_activation(all) == match last_activation(records@) {
                Some(a) => Some(a),
                None => activation_command,
            },
            activation_count(all) == seen + activation_count(records@),
            seen + records@.len() <= all.len(),
            all.len() == total,
            activation_command is Some <==> seen > 0,
        decreases records@.len(),
    {
        let ghost rest = records@;
        let msg = records.remove(0);
        assert(records@ == rest.drop_first());
        match msg {
            Decoded::Event(e) => {
                let ghost m = messages@;
                messages.push(e);
                assert(m + events_of(rest) =~= messages@ + events_of(records@));
            },
            Decoded::Activation(a) => {
                activation_command = Some(a);
                seen = seen + 1;
                assert(events_of(rest) == events_of(records@));
            },
            Decoded::Malformed => {
                assert(events_of(rest) == events_of(records@));
            },
        }
    }
    assert(messages@ + Seq::<E>::empty() =~= messages@);
    if seen > 1 {
        return Err(BlueprintError::MultipleActivations);
    }
    match activation_command {
        Some(a) => Ok((messages, a)),
        None => Err(BlueprintError::MissingActivation),
    }
}

} // verus!
