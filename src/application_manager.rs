use vstd::prelude::*;
use vstd::string::StringExecFns;
use crate::application::Application;
use crate::text::{lemma_unique_index, str_eq};

verus! {

/// The process-wide set of tenants, keyed by application id.
pub struct ApplicationManager {
    applications: Vec<Application>,
}

pub open spec fn app_ids(s: Seq<Application>) -> Seq<Seq<char>> {
    s.map_values(|a: Application| a.spec_app_id())
}

impl ApplicationManager {
    pub closed spec fn apps(&self) -> Seq<Application> {
        self.applications@
    }

    pub open spec fn has(&self, id: Seq<char>) -> bool {
        app_ids(self.apps()).contains(id)
    }

    /// The tenant of an id (meaningful when `has(id)`).
    pub open spec fn get(&self, id: Seq<char>) -> Application {
        self.apps()[app_ids(self.apps()).index_of(id)]
    }

    /// Ids are unique and every tenant is well formed.
    pub open spec fn wf(&self) -> bool {
        &&& app_ids(self.apps()).no_duplicates()
        &&& forall|i: int| 0 <= i < self.apps().len() ==> #[trigger] self.apps()[i].wf()
    }

    /// The development bootstrap: one application whose id, key and secret
    /// are all `test`.
    pub fn new() -> (r: ApplicationManager)
        ensures
            r.wf(),
            forall|x: Seq<char>| #[trigger] r.has(x) <==> x == "test"@,
            r.get("test"@).spec_app_id() == "test"@,
            r.get("test"@).spec_key() == "test"@,
            r.get("test"@).spec_secret() == "test"@,
            forall|x: Seq<char>| !#[trigger] r.get("test"@).conns().has(x),
            forall|x: Seq<char>| !#[trigger] r.get("test"@).chans().has(x),
    {
        let app = Application::new(String::from_str("test"), String::from_str("test"), String::from_str("test"));
        let mut applications: Vec<Application> = Vec::new();
        applications.push(app);
        let r = ApplicationManager { applications };
        proof {
            assert(app_ids(r.apps()) =~= seq!["test"@]);
            lemma_unique_index(app_ids(r.apps()), "test"@, 0);
        }
        r
    }

    fn find(&self, app_id: &str) -> (r: Option<usize>)
        ensures
            match r {
                Some(i) => i < self.apps().len() && self.apps()[i as int].spec_app_id() == app_id@ && self.has(app_id@)
                    && (self.wf() ==> app_ids(self.apps()).index_of(app_id@) == i),
                None => !self.has(app_id@),
            },
    {
        let mut i: usize = 0;
        while i < self.applications.len()
            invariant
                i <= self.applications@.len(),
                forall|k: int| 0 <= k < i ==> app_ids(self.apps())[k] != app_id@,
            decreases self.applications@.len() - i,
        {
            if str_eq(self.applications[i].app_id(), app_id) {
                assert(app_ids(self.apps())[i as int] == app_id@);
                proof {
                    if self.wf() {
                        lemma_unique_index(app_ids(self.apps()), app_id@, i as int);
                    }
                }
                return Some(i);
            }
            i = i + 1;
        }
        None
    }

    /// Adds a tenant with no channels and no connections, replacing any
    /// tenant of the same id.
    pub fn add_application(&mut self, app_id: String, key: String, secret: String)
        requires
            old(self).wf(),
        ensures
            final(self).wf(),
            final(self).has(app_id@),
            forall|x: Seq<char>| #[trigger] final(self).has(x) <==> old(self).has(x) || x == app_id@,
            forall|x: Seq<char>| x != app_id@ && old(self).has(x) ==> #[trigger] final(self).get(x) == old(self).get(x),
            final(self).get(app_id@).spec_app_id() == app_id@,
            final(self).get(app_id@).spec_key() == key@,
            final(self).get(app_id@).spec_secret() == secret@,
            forall|x: Seq<char>| !#[trigger] final(self).get(app_id@).conns().has(x),
            forall|x: Seq<char>| !#[trigger] final(self).get(app_id@).chans().has(x),
    {
        let ghost id = app_id@;
        let app = Application::new(app_id, key, secret);
        let ghost na = app;
        let ghost olds = self.apps();
        let ghost pos: int = 0;
        match self.find(app.app_id()) {
            Some(i) => {
                self.applications.set(i, app);
                proof {
                    pos = i as int;
                    assert(app_ids(self.apps()) =~= app_ids(olds));
                    assert(app_ids(self.apps())[i as int] == id);
                }
            },
            None => {
                self.applications.push(app);
                proof {
                    pos = olds.len() as int;
                    assert(app_ids(self.apps()) =~= app_ids(olds).push(id));
                    assert(app_ids(self.apps())[olds.len() as int] == id);
                    assert(app_ids(self.apps()).no_duplicates()) by {
                        assert forall|a: int, b: int| 0 <= a < b < self.apps().len() implies app_ids(self.apps())[a] != app_ids(self.apps())[b] by {
                            if b == olds.len() {
                                assert(app_ids(olds)[a] == app_ids(self.apps())[a]);
                            }
                        }
                    }
                }
            },
        }
        proof {
            let ids = app_ids(self.apps());
            assert(self.apps()[pos] == na);
            lemma_unique_index(ids, id, pos);
            assert forall|x: Seq<char>| #[trigger] self.has(x) <==> old(self).has(x) || x == id by {
                if self.has(x) && x != id {
                    let k = ids.index_of(x);
                    assert(app_ids(olds)[k] == x);
                }
                if old(self).has(x) {
                    let k = app_ids(olds).index_of(x);
                    assert(ids[k] == x);
                }
            }
            assert forall|x: Seq<char>| x != id && old(self).has(x) implies #[trigger] self.get(x) == old(self).get(x) by {
                let k = app_ids(olds).index_of(x);
                assert(app_ids(olds)[k] == x);
                assert(ids[k] == x);
                lemma_unique_index(ids, x, k);
            }
            assert forall|i: int| 0 <= i < self.apps().len() implies #[trigger] self.apps()[i].wf() by {
                if i != pos {
                    assert(self.apps()[i] == olds[i]);
                }
            }
        }
    }

    /// The tenant of an application id.
    pub fn get_application(&self, app_id: &str) -> (r: Option<&Application>)
        requires
            self.wf(),
        ensures
            r.is_some() == self.has(app_id@),
            r.is_some() ==> *r.unwrap() == self.get(app_id@) && r.unwrap().spec_app_id() == app_id@ && r.unwrap().wf(),
    {
        match self.find(app_id) {
            Some(i) => Some(&self.applications[i]),
            None => None,
        }
    }

    /// The tenant of an application id, for the realtime operations.
    pub fn get_application_mut(&mut self, app_id: &str) -> (r: Option<&mut Application>)
        requires
            old(self).wf(),
        ensures
            r.is_some() == old(self).has(app_id@),
            r.is_some() ==> *r.unwrap() == old(self).get(app_id@) && (*r.unwrap()).spec_app_id() == app_id@ && (*r.unwrap()).wf(),
    {
        match self.find(app_id) {
            Some(i) => Some(&mut self.applications[i]),
            None => None,
        }
    }

    /// Removes a tenant; an unknown id changes nothing.
    pub fn remove_application(&mut self, app_id: &str) -> (r: Option<Application>)
        requires
            old(self).wf(),
        ensures
            final(self).wf(),
            r.is_some() == old(self).has(app_id@),
            r.is_some() ==> r.unwrap() == old(self).get(app_id@),
            forall|x: Seq<char>| #[trigger] final(self).has(x) <==> old(self).has(x) && x != app_id@,
            forall|x: Seq<char>| final(self).has(x) ==> #[trigger] final(self).get(x) == old(self).get(x),
    {
        match self.find(app_id) {
            Some(i) => {
                let ghost olds = self.apps();
                let a = self.applications.remove(i);
                proof {
                    let oi = app_ids(olds);
                    let ids = app_ids(self.apps());
                    assert(ids =~= oi.remove(i as int));
                    assert forall|k: int| 0 <= k < self.apps().len() implies #[trigger] self.apps()[k].wf() by {
                        if k < i { assert(self.apps()[k] == olds[k]); } else { assert(self.apps()[k] == olds[k + 1]); }
                    }
                    assert forall|x: Seq<char>| #[trigger] self.has(x) <==> old(self).has(x) && x != app_id@ by {
                        if self.has(x) {
                            let k = ids.index_of(x);
                            if k < i { assert(oi[k] == x); } else { assert(oi[k + 1] == x); }
                        }
                        if old(self).has(x) && x != app_id@ {
                            let k = oi.index_of(x);
                            if k < i { assert(ids[k] == x); } else { assert(ids[k - 1] == x); }
                        }
                    }
                    assert forall|x: Seq<char>| self.has(x) implies #[trigger] self.get(x) == old(self).get(x) by {
                        let k = ids.index_of(x);
                        if k < i {
                            lemma_unique_index(oi, x, k);
                        } else {
                            lemma_unique_index(oi, x, k + 1);
                        }
                    }
                }
                Some(a)
            },
            None => None,
        }
    }

    /// The first tenant whose key is `key`.
    pub fn authenticate_key(&self, key: &str) -> (r: Option<&Application>)
        requires
            self.wf(),
        ensures
            r.is_some() == exists|i: int| 0 <= i < self.apps().len() && #[trigger] self.apps()[i].spec_key() == key@,
            r.is_some() ==> r.unwrap().spec_key() == key@ && r.unwrap().wf(),
    {
        let mut i: usize = 0;
        while i < self.applications.len()
            invariant
                i <= self.applications@.len(),
                self.wf(),
                forall|k: int| 0 <= k < i ==> self.apps()[k].spec_key() != key@,
            decreases self.applications@.len() - i,
        {
            if str_eq(self.applications[i].key(), key) {
                assert(self.apps()[i as int].spec_key() == key@);
                assert(self.apps()[i as int].wf());
                return Some(&self.applications[i]);
            }
            i = i + 1;
        }
        None
    }
}

} // verus!
