//! The registry of connected users: who is subscribed to what, how many
//! credits each has left, and what each is sent after a tick.

use vstd::prelude::*;
use crate::price::{price_text, push_price, Price};
use crate::stock_data::{last_price_in, Market, StockData};
use crate::text::{joined, names_of, push_text};

verus! {

/// The credits that a user has on connecting.
pub const USER_CREDITS: u32 = 1024;

/// A connected user.
#[derive(Debug)]
pub struct User {
    credits: u32,
    id: usize,
    subscriptions: Vec<String>,
}

/// What the registry knows of a user.
pub ghost struct UserView {
    pub id: usize,
    pub credits: nat,
    pub subscriptions: Seq<Seq<char>>,
}

impl View for User {
    type V = UserView;

    closed spec fn view(&self) -> UserView {
        UserView {
            id: self.id,
            credits: self.credits as nat,
            subscriptions: names_of(self.subscriptions@),
        }
    }
}

/// A user who has just connected: full credits, no subscriptions.
pub open spec fn fresh_user(id: usize) -> UserView {
    UserView { id, credits: USER_CREDITS as nat, subscriptions: Seq::empty() }
}

impl User {
    /// A user who has just connected.
    pub fn new(id: usize) -> (user: Self)
        ensures
            user@ == fresh_user(id),
    {
        let user = User { credits: USER_CREDITS, id, subscriptions: Vec::new() };
        assert(user@.subscriptions =~= Seq::empty());
        user
    }

    /// The user's identity.
    pub fn id(&self) -> (id: usize)
        ensures
            id == self@.id,
    {
        self.id
    }

    /// The credits that the user has left.
    pub fn credits(&self) -> (credits: u32)
        ensures
            credits == self@.credits,
    {
        self.credits
    }

    /// The symbols that the user is subscribed to, in the order in which
    /// they were first asked for.
    pub fn subscriptions(&self) -> (subscriptions: &Vec<String>)
        ensures
            names_of(subscriptions@) == self@.subscriptions,
    {
        &self.subscriptions
    }

    /// Tells whether the user is subscribed to `stock`.
    fn is_subscribed(&self, stock: &str) -> (found: bool)
        ensures
            found == self@.subscriptions.contains(stock@),
    {
        let mut i: usize = 0;
        while i < self.subscriptions.len()
            invariant
                i <= self.subscriptions@.len(),
                forall|j: int| 0 <= j < i ==> self@.subscriptions[j] != stock@,
            decreases self.subscriptions@.len() - i,
        {
            if self.subscriptions[i].as_str().eq(stock) {
                assert(self@.subscriptions[i as int] == stock@);
                return true;
            }
            i += 1;
        }
        false
    }

    /// Subscribes the user to each of `symbols` that it is not subscribed
    /// to yet.
    fn subscribe(&mut self, symbols: &Vec<String>)
        ensures
            final(self)@ == (UserView {
                subscriptions: merged(old(self)@.subscriptions, names_of(symbols@)),
                ..old(self)@
            }),
    {
        let ghost wanted = names_of(symbols@);
        let mut k: usize = 0;
        while k < symbols.len()
            invariant
                k <= symbols@.len(),
                wanted == names_of(symbols@),
                self.id == old(self).id,
                self.credits == old(self).credits,
                self@.subscriptions == merged(old(self)@.subscriptions, wanted.take(k as int)),
            decreases symbols@.len() - k,
        {
            assert(wanted.take(k + 1).drop_last() == wanted.take(k as int));
            let ghost before = self@.subscriptions;
            if !self.is_subscribed(symbols[k].as_str()) {
                self.subscriptions.push(symbols[k].clone());
                assert(self@.subscriptions =~= before.push(wanted[k as int]));
            }
            k += 1;
        }
        assert(wanted.take(k as int) == wanted);
    }
}

/// A subscription list after `symbols` were asked for: each symbol that the
/// list does not hold yet is appended, in the order given.
pub open spec fn merged(subscriptions: Seq<Seq<char>>, symbols: Seq<Seq<char>>) -> Seq<Seq<char>>
    decreases symbols.len(),
{
    if symbols.len() == 0 {
        subscriptions
    } else {
        let earlier = merged(subscriptions, symbols.drop_last());
        if earlier.contains(symbols.last()) {
            earlier
        } else {
            earlier.push(symbols.last())
        }
    }
}

/// Asking for symbols adds no symbol twice.
pub proof fn lemma_merged_has_no_duplicates(subscriptions: Seq<Seq<char>>, symbols: Seq<Seq<char>>)
    requires
        subscriptions.no_duplicates(),
    ensures
        merged(subscriptions, symbols).no_duplicates(),
    decreases symbols.len(),
{
    if symbols.len() > 0 {
        lemma_merged_has_no_duplicates(subscriptions, symbols.drop_last());
    }
}

/// A message for one user, to be handed to that user's connection.
#[derive(Debug)]
pub struct SendClientMessage {
    pub user_id: usize,
    pub message: String,
}

/// The messages as the model sees them: who gets which text.
pub open spec fn messages_of(sent: Seq<SendClientMessage>) -> Seq<(usize, Seq<char>)> {
    Seq::new(sent.len(), |i: int| (sent[i].user_id, sent[i].message@))
}

/// Whether a user with this identity is registered.
pub open spec fn has_user(users: Seq<UserView>, id: usize) -> bool {
    exists|i: int| 0 <= i < users.len() && users[i].id == id
}

/// Where the user with this identity stands among the registered users.
pub open spec fn user_index(users: Seq<UserView>, id: usize) -> int {
    choose|i: int| 0 <= i < users.len() && users[i].id == id
}

/// No two registered users share an identity.
pub open spec fn distinct_ids(users: Seq<UserView>) -> bool {
    forall|i: int, j: int| 0 <= i < j < users.len() ==> users[i].id != users[j].id
}

/// No two users share an identity, no user is subscribed to a symbol twice,
/// and no user has more credits than one starts with.
pub open spec fn well_formed(users: Seq<UserView>) -> bool {
    &&& distinct_ids(users)
    &&& forall|i: int|
        0 <= i < users.len() ==> (#[trigger] users[i]).subscriptions.no_duplicates()
            && users[i].credits <= USER_CREDITS
}

/// The users after one with this identity has connected: a new user at the
/// end, or, if the identity was registered already, a new user in the place
/// of the old one.
pub open spec fn connected(users: Seq<UserView>, id: usize) -> Seq<UserView> {
    if has_user(users, id) {
        users.update(user_index(users, id), fresh_user(id))
    } else {
        users.push(fresh_user(id))
    }
}

/// The users after the one with this identity has disconnected.
pub open spec fn disconnected(users: Seq<UserView>, id: usize) -> Seq<UserView> {
    if has_user(users, id) {
        users.remove(user_index(users, id))
    } else {
        users
    }
}

/// The users after the one with this identity has asked for `symbols`;
/// nothing changes if there is no such user.
pub open spec fn subscribed(users: Seq<UserView>, id: usize, symbols: Seq<Seq<char>>) -> Seq<
    UserView,
> {
    if has_user(users, id) {
        let at = user_index(users, id);
        users.update(
            at,
            UserView { subscriptions: merged(users[at].subscriptions, symbols), ..users[at] },
        )
    } else {
        users
    }
}

/// What a user is told of one symbol: its name, a colon, a space and its
/// price.
pub open spec fn fragment(name: Seq<char>, price: Price) -> Seq<char> {
    name + seq![':', ' '] + price_text(price)
}

/// The fragments for the subscribed symbols that have a price, in the order
/// of the subscriptions.
pub open spec fn fragments(subscriptions: Seq<Seq<char>>, market: Market) -> Seq<Seq<char>>
    decreases subscriptions.len(),
{
    if subscriptions.len() == 0 {
        Seq::empty()
    } else {
        let earlier = fragments(subscriptions.drop_last(), market);
        match last_price_in(market, subscriptions.last()) {
            Some(price) => earlier.push(fragment(subscriptions.last(), price)),
            None => earlier,
        }
    }
}

/// The text for a subscription list: its fragments, separated by commas.
pub open spec fn message_text(subscriptions: Seq<Seq<char>>, market: Market) -> Seq<char> {
    joined(fragments(subscriptions, market), ',')
}

/// Whether a user is sent a message in a round: it has subscriptions, at
/// least as many credits as subscriptions, and its text is not empty.
pub open spec fn is_served(user: UserView, market: Market) -> bool {
    let count = user.subscriptions.len();
    &&& count > 0
    &&& user.credits > 0
    &&& user.credits >= count
    &&& message_text(user.subscriptions, market).len() > 0
}

/// A user after a round: one credit less for each subscription if it was
/// sent a message, unchanged if not.
pub open spec fn served(user: UserView, market: Market) -> UserView {
    if is_served(user, market) {
        UserView { credits: (user.credits - user.subscriptions.len()) as nat, ..user }
    } else {
        user
    }
}

/// The users after a round.
pub open spec fn after_round(users: Seq<UserView>, market: Market) -> Seq<UserView> {
    Seq::new(users.len(), |i: int| served(users[i], market))
}

/// The messages of a round: one for each user that is served, in the order
/// of the users.
pub open spec fn round_messages(users: Seq<UserView>, market: Market) -> Seq<(usize, Seq<char>)>
    decreases users.len(),
{
    if users.len() == 0 {
        Seq::empty()
    } else {
        let earlier = round_messages(users.drop_last(), market);
        if is_served(users.last(), market) {
            earlier.push((users.last().id, message_text(users.last().subscriptions, market)))
        } else {
            earlier
        }
    }
}

/// Composes the text for a subscription list from the last prices.
pub fn compose_message(subscriptions: &Vec<String>, stock_data: &StockData) -> (response: String)
    requires
        stock_data.wf(),
    ensures
        response@ == message_text(names_of(subscriptions@), stock_data@),
{
    let ghost names = names_of(subscriptions@);
    let mut response = String::new();
    let mut any = false;
    let mut i: usize = 0;
    while i < subscriptions.len()
        invariant
            i <= subscriptions@.len(),
            names == names_of(subscriptions@),
            stock_data.wf(),
            any == (fragments(names.take(i as int), stock_data@).len() > 0),
            response@ == message_text(names.take(i as int), stock_data@),
        decreases subscriptions@.len() - i,
    {
        let stock = subscriptions[i].as_str();
        assert(names.take(i + 1).drop_last() == names.take(i as int));
        let ghost earlier = fragments(names.take(i as int), stock_data@);
        match stock_data.get_last_price(stock) {
            Some(price) => {
                if any {
                    response.push(',');
                }
                push_text(&mut response, stock);
                response.push(':');
                response.push(' ');
                push_price(&mut response, price);
                any = true;
                proof {
                    let piece = fragment(names[i as int], price);
                    assert(earlier.push(piece).drop_last() == earlier);
                    assert(response@ =~= joined(earlier.push(piece), ','));
                }
            },
            None => {},
        }
        i += 1;
    }
    assert(names.take(i as int) == names);
    response
}

/// The registry of connected users.
#[derive(Debug)]
pub struct UserStore {
    users: Vec<User>,
}

impl View for UserStore {
    type V = Seq<UserView>;

    /// The registered users, in the order in which they are served.
    closed spec fn view(&self) -> Seq<UserView> {
        Seq::new(self.users@.len(), |i: int| self.users@[i]@)
    }
}

impl UserStore {
    /// The registry is consistent.
    pub open spec fn wf(&self) -> bool {
        well_formed(self@)
    }

    /// A registry without users.
    pub fn new() -> (store: Self)
        ensures
            store.wf(),
            store@ == Seq::<UserView>::empty(),
    {
        let store = UserStore { users: Vec::new() };
        assert(store@ =~= Seq::<UserView>::empty());
        store
    }

    /// Finds the place of the user with this identity.
    fn find_user(&self, user_id: usize) -> (found: Option<usize>)
        requires
            self.wf(),
        ensures
            found is Some <==> has_user(self@, user_id),
            found is Some ==> found.unwrap() < self.users@.len() && found.unwrap() == user_index(
                self@,
                user_id,
            ),
    {
        let mut i: usize = 0;
        while i < self.users.len()
            invariant
                i <= self.users@.len(),
                self.wf(),
                forall|j: int| 0 <= j < i ==> self@[j].id != user_id,
            decreases self.users@.len() - i,
        {
            if self.users[i].id == user_id {
                assert(self@[i as int].id == user_id);
                assert(user_index(self@, user_id) == i) by {
                    let at = user_index(self@, user_id);
                    assert(self@[at].id == self@[i as int].id);
                }
                return Some(i);
            }
            i += 1;
        }
        None
    }

    /// How many users are registered.
    pub fn user_count(&self) -> (count: usize)
        ensures
            count == self@.len(),
    {
        self.users.len()
    }

    /// The user with this identity, if it is registered.
    pub fn get_user(&self, user_id: usize) -> (user: Option<&User>)
        requires
            self.wf(),
        ensures
            user is Some <==> has_user(self@, user_id),
            user is Some ==> user.unwrap()@ == self@[user_index(self@, user_id)],
    {
        match self.find_user(user_id) {
            Some(i) => Some(&self.users[i]),
            None => None,
        }
    }

    /// Registers a user who has just connected. A user who was registered
    /// under the same identity is replaced, and with it its subscriptions
    /// and credits.
    pub fn on_connected(&mut self, user_id: usize)
        requires
            old(self).wf(),
        ensures
            final(self).wf(),
            final(self)@ == connected(old(self)@, user_id),
    {
        let user = User::new(user_id);
        match self.find_user(user_id) {
            Some(i) => {
                self.users[i] = user;
            },
            None => {
                self.users.push(user);
            },
        }
        assert(self@ =~= connected(old(self)@, user_id));
    }

    /// Removes the user with this identity; nothing changes if there is
    /// none.
    pub fn on_disconnected(&mut self, user_id: usize)
        requires
            old(self).wf(),
        ensures
            final(self).wf(),
            final(self)@ == disconnected(old(self)@, user_id),
    {
        match self.find_user(user_id) {
            Some(i) => {
                self.users.remove(i);
            },
            None => {},
        }
        assert(self@ =~= disconnected(old(self)@, user_id));
    }

    /// Subscribes the user with this identity to each of `subscriptions`
    /// that it is not subscribed to yet; nothing changes if there is no such
    /// user. A name that is not tracked is accepted.
    pub fn update_subscriptions(&mut self, user_id: usize, subscriptions: &Vec<String>)
        requires
            old(self).wf(),
        ensures
            final(self).wf(),
            final(self)@ == subscribed(old(self)@, user_id, names_of(subscriptions@)),
    {
        match self.find_user(user_id) {
            Some(i) => {
                self.users[i].subscribe(subscriptions);
                proof {
                    lemma_merged_has_no_duplicates(
                        old(self)@[i as int].subscriptions,
                        names_of(subscriptions@),
                    );
                }
            },
            None => {},
        }
        assert(self@ =~= subscribed(old(self)@, user_id, names_of(subscriptions@)));
    }

    /// Serves one round after a tick. Each user with subscriptions and at
    /// least as many credits as subscriptions gets one message with the last
    /// prices of its symbols and pays one credit for each subscription; a
    /// user whose text would be empty gets nothing and pays nothing.
    pub fn on_stock_updated(&mut self, stock_data: &StockData) -> (sent: Vec<SendClientMessage>)
        requires
            old(self).wf(),
            stock_data.wf(),
        ensures
            final(self).wf(),
            final(self)@ == after_round(old(self)@, stock_data@),
            messages_of(sent@) == round_messages(old(self)@, stock_data@),
    {
        let mut sent: Vec<SendClientMessage> = Vec::new();
        let mut i: usize = 0;
        while i < self.users.len()
            invariant
                i <= self.users@.len(),
                self.users@.len() == old(self).users@.len(),
                stock_data.wf(),
                old(self).wf(),
                forall|j: int| 0 <= j < i ==> self@[j] == served(old(self)@[j], stock_data@),
                forall|j: int| i <= j < self.users@.len() ==> self@[j] == old(self)@[j],
                messages_of(sent@) == round_messages(old(self)@.take(i as int), stock_data@),
            decreases self.users@.len() - i,
        {
            assert(old(self)@.take(i + 1).drop_last() == old(self)@.take(i as int));
            let ghost earlier = messages_of(sent@);
            let ghost user = old(self)@[i as int];
            let ghost users = self@;
            let subs = self.users[i].subscriptions.len();
            let credits = self.users[i].credits;
            if subs > 0 && credits > 0 && credits as usize >= subs {
                let response = compose_message(&self.users[i].subscriptions, stock_data);
                if !response.as_str().is_empty() {
                    let ghost text = response@;
                    sent.push(SendClientMessage { user_id: self.users[i].id, message: response });
                    self.users[i].credits = credits - subs as u32;
                    assert(messages_of(sent@) =~= earlier.push((user.id, text)));
                }
            }
            assert(self@ =~= users.update(i as int, served(user, stock_data@)));
            i += 1;
        }
        assert(old(self)@.take(i as int) == old(self)@);
        assert(self@ =~= after_round(old(self)@, stock_data@));
        sent
    }
}

/// The users after one round for each market of `markets`, in order.
pub open spec fn after_rounds(users: Seq<UserView>, markets: Seq<Market>) -> Seq<UserView>
    decreases markets.len(),
{
    if markets.len() == 0 {
        users
    } else {
        after_round(after_rounds(users, markets.drop_last()), markets.last())
    }
}

/// How many of the messages are for the user with this identity.
pub open spec fn count_for(messages: Seq<(usize, Seq<char>)>, id: usize) -> nat
    decreases messages.len(),
{
    if messages.len() == 0 {
        0
    } else {
        count_for(messages.drop_last(), id) + if messages.last().0 == id {
            1nat
        } else {
            0nat
        }
    }
}

/// Every fragment holds at least a colon and a space.
pub proof fn lemma_fragments_are_not_empty(subscriptions: Seq<Seq<char>>, market: Market, i: int)
    requires
        0 <= i < fragments(subscriptions, market).len(),
    ensures
        fragments(subscriptions, market)[i].len() >= 2,
    decreases subscriptions.len(),
{
    if subscriptions.len() > 0 {
        let earlier = fragments(subscriptions.drop_last(), market);
        if i < earlier.len() {
            lemma_fragments_are_not_empty(subscriptions.drop_last(), market, i);
        }
    }
}

/// A user none of whose symbols has a price yet has an empty text, and so
/// is not served: it gets no message and pays nothing.
pub proof fn lemma_unpriced_subscriptions_give_no_text(
    subscriptions: Seq<Seq<char>>,
    market: Market,
)
    requires
        forall|i: int|
            0 <= i < subscriptions.len() ==> last_price_in(market, #[trigger] subscriptions[i])
                is None,
    ensures
        fragments(subscriptions, market).len() == 0,
        message_text(subscriptions, market).len() == 0,
    decreases subscriptions.len(),
{
    if subscriptions.len() > 0 {
        let earlier = subscriptions.drop_last();
        assert forall|i: int| 0 <= i < earlier.len() implies last_price_in(
            market,
            #[trigger] earlier[i],
        ) is None by {
            assert(earlier[i] == subscriptions[i]);
        }
        lemma_unpriced_subscriptions_give_no_text(earlier, market);
        assert(subscriptions.last() == subscriptions[subscriptions.len() - 1]);
    }
}

/// As soon as one subscribed symbol has a price, the text is not empty.
pub proof fn lemma_priced_subscription_gives_text(
    subscriptions: Seq<Seq<char>>,
    market: Market,
    i: int,
)
    requires
        0 <= i < subscriptions.len(),
        last_price_in(market, subscriptions[i]) is Some,
    ensures
        fragments(subscriptions, market).len() > 0,
        message_text(subscriptions, market).len() > 0,
    decreases subscriptions.len(),
{
    let earlier = subscriptions.drop_last();
    if i < subscriptions.len() - 1 {
        assert(earlier[i] == subscriptions[i]);
        lemma_priced_subscription_gives_text(earlier, market, i);
    }
    let pieces = fragments(subscriptions, market);
    lemma_fragments_are_not_empty(subscriptions, market, pieces.len() - 1);
}

/// A user with fewer credits than subscriptions is not served, whatever the
/// prices are.
pub proof fn lemma_starved_user_is_not_served(user: UserView, market: Market)
    requires
        user.credits < user.subscriptions.len(),
    ensures
        !is_served(user, market),
        served(user, market) == user,
{
}

/// A user who is served pays exactly one credit for each subscription, and
/// nothing else about it changes; no round ever adds credits.
pub proof fn lemma_served_user_pays_per_subscription(user: UserView, market: Market)
    ensures
        is_served(user, market) ==> served(user, market).credits + user.subscriptions.len()
            == user.credits,
        served(user, market).credits <= user.credits,
        served(user, market).id == user.id,
        served(user, market).subscriptions == user.subscriptions,
{
}

/// A round changes neither who is registered nor in which order.
pub proof fn lemma_rounds_keep_users(users: Seq<UserView>, markets: Seq<Market>)
    ensures
        after_rounds(users, markets).len() == users.len(),
        forall|i: int|
            0 <= i < users.len() ==> (#[trigger] after_rounds(users, markets)[i]).id == users[i].id
                && after_rounds(users, markets)[i].subscriptions == users[i].subscriptions
                && after_rounds(users, markets)[i].credits <= users[i].credits,
    decreases markets.len(),
{
    if markets.len() > 0 {
        lemma_rounds_keep_users(users, markets.drop_last());
    }
}

/// A user with fewer credits than subscriptions stays as it is through any
/// number of rounds.
pub proof fn lemma_starved_user_stays_starved(users: Seq<UserView>, markets: Seq<Market>, i: int)
    requires
        0 <= i < users.len(),
        users[i].credits < users[i].subscriptions.len(),
    ensures
        after_rounds(users, markets).len() == users.len(),
        after_rounds(users, markets)[i] == users[i],
    decreases markets.len(),
{
    lemma_rounds_keep_users(users, markets);
    if markets.len() > 0 {
        lemma_starved_user_stays_starved(users, markets.drop_last(), i);
        lemma_rounds_keep_users(users, markets.drop_last());
    }
}

/// A round has no message for an identity that is not registered, and does
/// not register it.
pub proof fn lemma_absent_user_gets_nothing(users: Seq<UserView>, market: Market, id: usize)
    requires
        !has_user(users, id),
    ensures
        count_for(round_messages(users, market), id) == 0,
        !has_user(after_round(users, market), id),
    decreases users.len(),
{
    if users.len() > 0 {
        let earlier = users.drop_last();
        assert(!has_user(earlier, id)) by {
            if has_user(earlier, id) {
                let at = user_index(earlier, id);
                assert(users[at].id == id);
            }
        }
        lemma_absent_user_gets_nothing(earlier, market, id);
        assert(users[users.len() - 1].id != id);
        let messages = round_messages(users, market);
        if is_served(users.last(), market) {
            assert(messages.drop_last() == round_messages(earlier, market));
        }
    }
    assert(!has_user(after_round(users, market), id)) by {
        if has_user(after_round(users, market), id) {
            let at = user_index(after_round(users, market), id);
            assert(users[at].id == id);
        }
    }
}

/// In a round, a registered user gets exactly one message if it is served,
/// and none if it is not.
pub proof fn lemma_one_message_per_served_user(users: Seq<UserView>, market: Market, i: int)
    requires
        distinct_ids(users),
        0 <= i < users.len(),
    ensures
        count_for(round_messages(users, market), users[i].id) == (if is_served(users[i], market) {
            1nat
        } else {
            0nat
        }),
        is_served(users[i], market) ==> round_messages(users, market).contains(
            (users[i].id, message_text(users[i].subscriptions, market)),
        ),
    decreases users.len(),
{
    let earlier = users.drop_last();
    let messages = round_messages(users, market);
    let id = users[i].id;
    if is_served(users.last(), market) {
        assert(messages.drop_last() == round_messages(earlier, market));
    }
    if i == users.len() - 1 {
        assert(!has_user(earlier, id)) by {
            if has_user(earlier, id) {
                let at = user_index(earlier, id);
                assert(users[at].id == users[i].id);
            }
        }
        lemma_absent_user_gets_nothing(earlier, market, id);
        if is_served(users[i], market) {
            assert(messages[messages.len() - 1] == (
                id,
                message_text(users[i].subscriptions, market),
            ));
        }
    } else {
        assert(earlier[i] == users[i]);
        lemma_one_message_per_served_user(earlier, market, i);
        assert(users[users.len() - 1].id != users[i].id);
        if is_served(users[i], market) {
            let wanted = (id, message_text(users[i].subscriptions, market));
            let at = choose|k: int|
                0 <= k < round_messages(earlier, market).len() && round_messages(earlier, market)[k]
                    == wanted;
            assert(messages[at] == wanted);
        }
    }
}

/// Once a user has disconnected, its identity is not registered.
pub proof fn lemma_disconnected_user_is_absent(users: Seq<UserView>, id: usize)
    requires
        distinct_ids(users),
    ensures
        !has_user(disconnected(users, id), id),
{
    if has_user(users, id) {
        let at = user_index(users, id);
        let rest = users.remove(at);
        if has_user(rest, id) {
            let k = user_index(rest, id);
            if k < at {
                assert(users[k].id == id);
            } else {
                assert(users[k + 1].id == id);
            }
        }
    }
}

/// An identity that is not registered stays so through any number of
/// rounds, and a request for subscriptions under it changes nothing.
pub proof fn lemma_absent_user_stays_absent(
    users: Seq<UserView>,
    markets: Seq<Market>,
    id: usize,
    symbols: Seq<Seq<char>>,
)
    requires
        !has_user(users, id),
    ensures
        !has_user(after_rounds(users, markets), id),
        subscribed(users, id, symbols) == users,
    decreases markets.len(),
{
    if markets.len() > 0 {
        lemma_absent_user_stays_absent(users, markets.drop_last(), id, symbols);
        let earlier = after_rounds(users, markets.drop_last());
        lemma_absent_user_gets_nothing(earlier, markets.last(), id);
    }
}

} // verus!
