//! What the domains of a group have been given since an earlier state of it.
use vstd::arithmetic::div_mod::{
    lemma_fundamental_div_mod, lemma_mod_equivalence, lemma_small_mod,
};
use vstd::prelude::*;

use crate::api::DomainGroupRouting;
use crate::domain_group::{DomainGroup, posted};
use crate::provider::{DomainEvent, RdmaDomain};

verus! {

impl<D: RdmaDomain, C, A, const N: usize> DomainGroup<D, C, A, N> {
    /// What the domain `i` has been asked since `before`, oldest first.
    pub open spec fn given(&self, before: &Self, i: int) -> Seq<DomainEvent> {
        self.domains[i].history().skip(before.domains[i].history().len() as int)
    }

    /// No domain has forgotten anything of what it had been asked before.
    pub open spec fn continues(&self, before: &Self) -> bool {
        forall|i: int|
            #![trigger self.domains[i]]
            0 <= i < N ==> before.domains[i].history().is_prefix_of(self.domains[i].history())
    }
}

/// How many steps a round robin over `n` domains that stands at `rr` takes to the domain `i`.
pub open spec fn steps_to(rr: int, i: int, n: int) -> int {
    (i - rr) % n
}

/// Which shard of a transfer the domain `i` of `n` carries, if there are so many shards: a round
/// robin that stands at `rr` goes through the domains in turn, and a pinned transfer has one
/// shard, on its domain.
pub open spec fn shard_on(routing: DomainGroupRouting, rr: int, i: int, n: int) -> Option<int> {
    match routing {
        DomainGroupRouting::RoundRobinSharded { .. } => Some(steps_to(rr, i, n)),
        DomainGroupRouting::Pinned { domain_idx } => if domain_idx == i {
            Some(0)
        } else {
            None
        },
    }
}

/// How many posts the domain of the post `k` has been handed before it.
spec fn place(histories: Seq<Seq<DomainEvent>>, posts: Seq<(int, DomainEvent)>, k: int) -> int {
    posted(histories, posts.take(k))[posts[k].0].len() - histories[posts[k].0].len()
}

/// Every post names a domain.
pub open spec fn addressed(posts: Seq<(int, DomainEvent)>, n: int) -> bool {
    forall|k: int| #![trigger posts[k]] 0 <= k < posts.len() ==> 0 <= posts[k].0 < n
}

proof fn lemma_posted_extends(histories: Seq<Seq<DomainEvent>>, posts: Seq<(int, DomainEvent)>)
    requires
        addressed(posts, histories.len() as int),
    ensures
        posted(histories, posts).len() == histories.len(),
        forall|i: int|
            #![trigger posted(histories, posts)[i]]
            0 <= i < histories.len() ==> histories[i].is_prefix_of(posted(histories, posts)[i])
                && posted(histories, posts)[i].len() <= histories[i].len() + posts.len(),
    decreases posts.len(),
{
    if posts.len() > 0 {
        let rest = posts.drop_last();
        assert forall|k: int| #![trigger rest[k]] 0 <= k < rest.len() implies 0 <= rest[k].0
            < histories.len() by {
            assert(rest[k] == posts[k]);
        }
        lemma_posted_extends(histories, rest);
        assert(posts.last() == posts[posts.len() - 1]);
        assert forall|i: int|
            #![trigger posted(histories, posts)[i]]
            0 <= i < histories.len() implies histories[i].is_prefix_of(posted(histories, posts)[i])
            && posted(histories, posts)[i].len() <= histories[i].len() + posts.len() by {
            assert(histories[i].is_prefix_of(posted(histories, rest)[i]));
        }
    }
}

/// The post `k` stands at its place.
proof fn lemma_post_has_its_place(
    histories: Seq<Seq<DomainEvent>>,
    posts: Seq<(int, DomainEvent)>,
    k: int,
)
    requires
        addressed(posts, histories.len() as int),
        0 <= k < posts.len(),
    ensures
        ({
            let i = posts[k].0;
            let given = posted(histories, posts)[i].skip(histories[i].len() as int);
            0 <= place(histories, posts, k) < given.len() && given[place(histories, posts, k)]
                == posts[k].1
        }),
    decreases posts.len(),
{
    let rest = posts.drop_last();
    assert forall|j: int| #![trigger rest[j]] 0 <= j < rest.len() implies 0 <= rest[j].0
        < histories.len() by {
        assert(rest[j] == posts[j]);
    }
    lemma_posted_extends(histories, rest);
    let i = posts[k].0;
    let last = posts[posts.len() - 1];
    assert(last == posts.last());
    assert(histories[i].is_prefix_of(posted(histories, rest)[i]));
    if k == posts.len() - 1 {
        assert(posts.take(k) =~= rest);
    } else {
        assert(rest.take(k) =~= posts.take(k));
        assert(rest[k] == posts[k]);
        lemma_post_has_its_place(histories, rest, k);
        let given = posted(histories, rest)[i].skip(histories[i].len() as int);
        let e = place(histories, posts, k);
        assert(given[e] == posts[k].1);
        assert(posted(histories, posts)[i].skip(histories[i].len() as int)[e] == given[e]);
    }
}

/// Whatever a domain has been given is a post, at its place.
proof fn lemma_given_is_a_post(
    histories: Seq<Seq<DomainEvent>>,
    posts: Seq<(int, DomainEvent)>,
    i: int,
    e: int,
) -> (k: int)
    requires
        addressed(posts, histories.len() as int),
        0 <= i < histories.len(),
        0 <= e < posted(histories, posts)[i].len() - histories[i].len(),
    ensures
        0 <= k < posts.len(),
        posts[k].0 == i,
        place(histories, posts, k) == e,
    decreases posts.len(),
{
    if posts.len() == 0 {
        0
    } else {
        let rest = posts.drop_last();
        assert forall|j: int| #![trigger rest[j]] 0 <= j < rest.len() implies 0 <= rest[j].0
            < histories.len() by {
            assert(rest[j] == posts[j]);
        }
        lemma_posted_extends(histories, rest);
        let last = posts[posts.len() - 1];
        assert(last == posts.last());
        assert(histories[i].is_prefix_of(posted(histories, rest)[i]));
        if e < posted(histories, rest)[i].len() - histories[i].len() {
            let k = lemma_given_is_a_post(histories, rest, i, e);
            assert(rest.take(k) =~= posts.take(k));
            assert(rest[k] == posts[k]);
            k
        } else {
            assert(posts.take(posts.len() - 1) =~= rest);
            posts.len() - 1
        }
    }
}

/// What the domain `i` was given at the place `e` is a post.
pub open spec fn is_posted(
    posts: Seq<(int, DomainEvent)>,
    places: Seq<int>,
    i: int,
    e: int,
) -> bool {
    exists|k: int|
        #![trigger posts[k]]
        0 <= k < posts.len() && posts[k].0 == i && places[k] == e
}

/// Posts that were handed out are what the domains have been given, one for one.
pub proof fn lemma_posts_are_given<D: RdmaDomain, C, A, const N: usize>(
    after: DomainGroup<D, C, A, N>,
    before: DomainGroup<D, C, A, N>,
    posts: Seq<(int, DomainEvent)>,
) -> (places: Seq<int>)
    requires
        addressed(posts, N as int),
        after.histories() == posted(before.histories(), posts),
    ensures
        after.continues(&before),
        places.len() == posts.len(),
        forall|k: int|
            #![trigger posts[k]]
            0 <= k < posts.len() ==> 0 <= places[k] < after.given(&before, posts[k].0).len()
                && after.given(&before, posts[k].0)[places[k]] == posts[k].1,
        forall|i: int, e: int|
            0 <= i < N && 0 <= e < after.given(&before, i).len() ==> #[trigger] is_posted(
                posts,
                places,
                i,
                e,
            ),
        forall|j: int, k: int|
            #![trigger posts[j], posts[k]]
            0 <= j < k < posts.len() && posts[j].0 == posts[k].0 ==> places[j] < places[k],
        forall|i: int|
            #![trigger after.given(&before, i)]
            0 <= i < N ==> after.given(&before, i).len() <= posts.len(),
{
    let histories = before.histories();
    let places = Seq::new(posts.len(), |k: int| place(histories, posts, k));
    lemma_posted_extends(histories, posts);
    assert forall|i: int| #![trigger after.domains[i]] 0 <= i < N implies before.domains[i].history(

    ).is_prefix_of(after.domains[i].history()) by {
        assert(after.histories()[i] == after.domains[i].history());
        assert(histories[i] == before.domains[i].history());
        assert(histories[i].is_prefix_of(posted(histories, posts)[i]));
    }
    assert forall|k: int| #![trigger posts[k]] 0 <= k < posts.len() implies 0 <= places[k]
        < after.given(&before, posts[k].0).len() && after.given(&before, posts[k].0)[places[k]]
        == posts[k].1 by {
        lemma_post_has_its_place(histories, posts, k);
        assert(after.histories()[posts[k].0] == after.domains[posts[k].0].history());
        assert(histories[posts[k].0] == before.domains[posts[k].0].history());
    }
    assert forall|i: int, e: int|
        0 <= i < N && 0 <= e < after.given(&before, i).len() implies #[trigger] is_posted(
        posts,
        places,
        i,
        e,
    ) by {
        assert(after.histories()[i] == after.domains[i].history());
        assert(histories[i] == before.domains[i].history());
        assert(histories[i].is_prefix_of(posted(histories, posts)[i]));
        let k = lemma_given_is_a_post(histories, posts, i, e);
        assert(posts[k].0 == i && places[k] == e);
    }
    assert forall|i: int| #![trigger after.given(&before, i)] 0 <= i < N implies after.given(
        &before,
        i,
    ).len() <= posts.len() by {
        assert(after.histories()[i] == after.domains[i].history());
        assert(histories[i] == before.domains[i].history());
        assert(histories[i].is_prefix_of(posted(histories, posts)[i]));
    }
    assert forall|j: int, k: int|
        #![trigger posts[j], posts[k]]
        0 <= j < k < posts.len() && posts[j].0 == posts[k].0 implies places[j] < places[k] by {
        let first = posts.take(k);
        assert forall|l: int| #![trigger first[l]] 0 <= l < first.len() implies 0 <= first[l].0
            < histories.len() by {
            assert(first[l] == posts[l]);
        }
        assert(first[j] == posts[j]);
        assert(first.take(j) =~= posts.take(j));
        lemma_posted_extends(histories, first);
        lemma_post_has_its_place(histories, first, j);
    }
    places
}

/// The domain that `k` steps lead to is `k` steps away.
pub proof fn lemma_steps_to(rr: int, k: int, n: int)
    requires
        0 <= k < n,
    ensures
        0 <= (rr + k) % n < n,
        steps_to(rr, (rr + k) % n, n) == k,
{
    let i = (rr + k) % n;
    lemma_fundamental_div_mod(rr + k, n);
    let q = (rr + k) / n;
    assert(i - rr == k + n * (-q)) by (nonlinear_arith)
        requires
            rr + k == n * q + i,
    ;
    lemma_mod_equivalence(i - rr, k, n);
    lemma_fundamental_div_mod(i - rr, n);
    assert((i - rr - k) % n == 0) by {
        vstd::arithmetic::div_mod::lemma_mod_multiples_basic(-q, n);
        assert((-q) * n == n * (-q)) by (nonlinear_arith);
    }
    lemma_small_mod(k as nat, n as nat);
}

/// The steps to a domain lead to it.
pub proof fn lemma_steps_lead_there(rr: int, i: int, n: int)
    requires
        0 <= i < n,
    ensures
        0 <= steps_to(rr, i, n) < n,
        (rr + steps_to(rr, i, n)) % n == i,
{
    let k = steps_to(rr, i, n);
    lemma_fundamental_div_mod(i - rr, n);
    let q = (i - rr) / n;
    assert(rr + k - i == n * (-q)) by (nonlinear_arith)
        requires
            i - rr == n * q + k,
    ;
    assert((rr + k - i) % n == 0) by {
        vstd::arithmetic::div_mod::lemma_mod_multiples_basic(-q, n);
        assert((-q) * n == n * (-q)) by (nonlinear_arith);
    }
    lemma_mod_equivalence(rr + k, i, n);
    lemma_small_mod(i as nat, n as nat);
}

/// Posts to successive domains, at most one for each, are all that these domains are given.
pub proof fn lemma_one_for_each<D: RdmaDomain, C, A, const N: usize>(
    after: DomainGroup<D, C, A, N>,
    before: DomainGroup<D, C, A, N>,
    posts: Seq<(int, DomainEvent)>,
    rr: int,
)
    requires
        posts.len() <= N,
        forall|k: int|
            #![trigger posts[k]]
            0 <= k < posts.len() ==> posts[k].0 == (rr + k) % (N as int),
        after.histories() == posted(before.histories(), posts),
    ensures
        after.continues(&before),
        addressed(posts, N as int),
        forall|i: int|
            #![trigger after.given(&before, i)]
            0 <= i < N ==> {
                let k = steps_to(rr, i, N as int);
                &&& 0 <= k < N
                &&& after.given(&before, i) == if k < posts.len() {
                    seq![posts[k].1]
                } else {
                    Seq::empty()
                }
            },
{
    let n = N as int;
    assert forall|k: int| #![trigger posts[k]] 0 <= k < posts.len() implies 0 <= posts[k].0 < N by {
        lemma_steps_to(rr, k, n);
    }
    let places = lemma_posts_are_given(after, before, posts);
    assert forall|i: int| #![trigger after.given(&before, i)] 0 <= i < N implies {
        let k = steps_to(rr, i, n);
        &&& 0 <= k < N
        &&& after.given(&before, i) == if k < posts.len() {
            seq![posts[k].1]
        } else {
            Seq::empty()
        }
    } by {
        lemma_steps_lead_there(rr, i, n);
        let s = steps_to(rr, i, n);
        let given = after.given(&before, i);
        assert forall|e: int|
            #![trigger is_posted(posts, places, i, e)]
            0 <= e < given.len() implies s < posts.len() && places[s] == e by {
            assert(is_posted(posts, places, i, e));
            let k = choose|k: int|
                #![trigger posts[k]]
                0 <= k < posts.len() && posts[k].0 == i && places[k] == e;
            lemma_steps_to(rr, k, n);
            assert(k == s);
        }
        if s < posts.len() {
            assert(posts[s].0 == i);
            if given.len() > 1 {
                assert(is_posted(posts, places, i, 0) && is_posted(posts, places, i, 1));
            }
            assert(given =~= seq![posts[s].1]);
        } else {
            if given.len() > 0 {
                assert(is_posted(posts, places, i, 0));
            }
            assert(given =~= Seq::<DomainEvent>::empty());
        }
    }
}

/// A single post is all that its domain is given, and the others are given nothing.
pub proof fn lemma_only_one<D: RdmaDomain, C, A, const N: usize>(
    after: DomainGroup<D, C, A, N>,
    before: DomainGroup<D, C, A, N>,
    posts: Seq<(int, DomainEvent)>,
)
    requires
        posts.len() == 1,
        0 <= posts[0].0 < N,
        after.histories() == posted(before.histories(), posts),
    ensures
        after.continues(&before),
        forall|i: int|
            #![trigger after.given(&before, i)]
            0 <= i < N ==> after.given(&before, i) == if i == posts[0].0 {
                seq![posts[0].1]
            } else {
                Seq::empty()
            },
{
    let places = lemma_posts_are_given(after, before, posts);
    assert forall|i: int| #![trigger after.given(&before, i)] 0 <= i < N implies after.given(
        &before,
        i,
    ) == if i == posts[0].0 {
        seq![posts[0].1]
    } else {
        Seq::empty()
    } by {
        let given = after.given(&before, i);
        assert forall|e: int|
            #![trigger is_posted(posts, places, i, e)]
            0 <= e < given.len() implies i == posts[0].0 && places[0] == e by {
            assert(is_posted(posts, places, i, e));
            let k = choose|k: int|
                #![trigger posts[k]]
                0 <= k < posts.len() && posts[k].0 == i && places[k] == e;
            assert(k == 0);
        }
        if i == posts[0].0 {
            if given.len() > 1 {
                assert(is_posted(posts, places, i, 0) && is_posted(posts, places, i, 1));
            }
            assert(given =~= seq![posts[0].1]);
        } else {
            if given.len() > 0 {
                assert(is_posted(posts, places, i, 0));
            }
            assert(given =~= Seq::<DomainEvent>::empty());
        }
    }
}

/// The shard of a domain is on that domain.
pub proof fn lemma_steps_of_shard(routing: DomainGroupRouting, rr: int, i: int, n: int)
    requires
        0 <= i < n,
    ensures
        shard_on(routing, rr, i, n) matches Some(k) ==> 0 <= k < n && routing.domain_of_shard(
            rr,
            k,
            n,
        ) == i,
{
    lemma_steps_lead_there(rr, i, n);
}

/// The domain of a shard has that shard.
pub proof fn lemma_shard_of_domain(routing: DomainGroupRouting, rr: int, k: int, n: int)
    requires
        0 <= k < n,
        routing matches DomainGroupRouting::Pinned { domain_idx } ==> domain_idx < n && k == 0,
    ensures
        0 <= routing.domain_of_shard(rr, k, n) < n,
        shard_on(routing, rr, routing.domain_of_shard(rr, k, n), n) == Some(k),
{
    lemma_steps_to(rr, k, n);
}

/// The posts of shards are all that the domains are given, each on the domain of its shard.
pub proof fn lemma_shards_are_given<D: RdmaDomain, C, A, const N: usize>(
    after: DomainGroup<D, C, A, N>,
    before: DomainGroup<D, C, A, N>,
    posts: Seq<(int, DomainEvent)>,
    routing: DomainGroupRouting,
    rr: int,
)
    requires
        0 < posts.len() <= N,
        routing matches DomainGroupRouting::Pinned { domain_idx } ==> posts.len() == 1 && domain_idx
            < N,
        forall|k: int|
            #![trigger posts[k]]
            0 <= k < posts.len() ==> posts[k].0 == routing.domain_of_shard(rr, k, N as int),
        after.histories() == posted(before.histories(), posts),
    ensures
        after.continues(&before),
        forall|i: int|
            #![trigger after.given(&before, i)]
            0 <= i < N ==> match shard_on(routing, rr, i, N as int) {
                Some(k) => {
                    &&& 0 <= k < N
                    &&& after.given(&before, i) == if k < posts.len() {
                        seq![posts[k].1]
                    } else {
                        Seq::empty()
                    }
                },
                None => after.given(&before, i) == Seq::<DomainEvent>::empty(),
            },
{
    match routing {
        DomainGroupRouting::RoundRobinSharded { .. } => {
            lemma_one_for_each(after, before, posts, rr);
        },
        DomainGroupRouting::Pinned { .. } => {
            assert(posts[0].0 == routing.domain_of_shard(rr, 0, N as int));
            lemma_only_one(after, before, posts);
        },
    }
}

} // verus!
