//! The bounded queue that callbacks hand recalls to.

use tokio::sync::mpsc::Sender;
use vstd::prelude::*;

verus! {

/// The sending half of a bounded `tokio` channel.
#[verifier::external_type_specification]
#[verifier::external_body]
#[verifier::reject_recursive_types(T)]
pub struct ExSender<T>(tokio::sync::mpsc::Sender<T>);

/// `Sender::try_send`: offers an item without waiting and says whether the queue took it.
/// A queue that is full or that nobody reads any more refuses. Other tasks fill and drain
/// the queue meanwhile, so nothing is promised of the answer.
#[verifier::external_body]
fn try_send<T>(queue: &Sender<T>, item: T) -> (taken: bool) {
    queue.try_send(item).is_ok()
}

/// An item that a queue was offered, and whether the queue took it.
#[verifier::ext_equal]
pub struct Handed<V> {
    pub item: V,
    pub taken: bool,
}

/// Items that a queue was offered one after another. `taken[i]` is what it said to item `i`.
pub open spec fn handed<V>(items: Seq<V>, taken: Seq<bool>) -> Seq<Handed<V>> {
    Seq::new(items.len(), |i: int| Handed { item: items[i], taken: taken[i] })
}

/// A queue, seen as what it was offered so far.
#[verifier::reject_recursive_types(T)]
pub struct Outbox<T: View> {
    queue: Sender<T>,
    offers: Ghost<Seq<Handed<T::V>>>,
}

impl<T: View> View for Outbox<T> {
    type V = Seq<Handed<T::V>>;

    closed spec fn view(&self) -> Seq<Handed<T::V>> {
        self.offers@
    }
}

impl<T: View> Outbox<T> {
    /// A queue that has not been offered anything.
    pub fn new(queue: Sender<T>) -> (outbox: Self)
        ensures
            outbox@ == Seq::<Handed<T::V>>::empty(),
    {
        Outbox { queue, offers: Ghost(Seq::empty()) }
    }

    /// Offers an item to the queue without waiting, and says whether the queue took it.
    pub fn offer(&mut self, item: T) -> (taken: bool)
        ensures
            final(self)@ == old(self)@.push(Handed { item: item@, taken }),
    {
        let ghost view = item@;
        let taken = try_send(&self.queue, item);
        self.offers = Ghost(self.offers@.push(Handed { item: view, taken }));
        taken
    }
}

} // verus!
