//! The repository registry: name → URL template (+ extra parameters)
//! lookup, loaded once and read-only afterwards. The process boundary
//! performs the actual file or environment reading and hands the parsed
//! entries in; the guarded one-time-initialization cell lives here.

use vstd::prelude::*;

use crate::error::ReposError;

verus! {

/// Ghost-level picture of a [`Repository`].
pub struct RepositoryModel {
    pub name: Seq<char>,
    pub url: Seq<char>,
    pub other_parameters: Option<Seq<(Seq<char>, Seq<char>)>>,
}

/// One configured upstream repository: a name, a URL template with
/// positional `{}` placeholders, and optional extra string parameters.
#[derive(Debug)]
pub struct Repository {
    name: String,
    url: String,
    other_parameters: Option<Vec<(String, String)>>,
}

/// The model of a parameter list.
pub open spec fn params_model(params: Seq<(String, String)>) -> Seq<(Seq<char>, Seq<char>)> {
    params.map_values(|e: (String, String)| (e.0@, e.1@))
}

impl View for Repository {
    type V = RepositoryModel;

    closed spec fn view(&self) -> RepositoryModel {
        RepositoryModel {
            name: self.name@,
            url: self.url@,
            other_parameters: match self.other_parameters {
                Some(ref p) => Some(params_model(p@)),
                None => None,
            },
        }
    }
}

/// First value bound to `key`, scanning in order.
pub open spec fn param_lookup(params: Seq<(Seq<char>, Seq<char>)>, key: Seq<char>) -> Option<
    Seq<char>,
>
    decreases params.len(),
{
    if params.len() == 0 {
        None
    } else if params[0].0 == key {
        Some(params[0].1)
    } else {
        param_lookup(params.drop_first(), key)
    }
}

impl Repository {
    pub fn new(name: String, url: String, other_parameters: Option<Vec<(String, String)>>) -> (r:
        Self)
        ensures
            r@.name == name@,
            r@.url == url@,
            r@.other_parameters == (match other_parameters {
                Some(p) => Some(params_model(p@)),
                None => None::<Seq<(Seq<char>, Seq<char>)>>,
            }),
    {
        Repository { name, url, other_parameters }
    }

    pub fn name(&self) -> (r: &str)
        ensures
            r@ == self@.name,
    {
        self.name.as_str()
    }

    pub fn url(&self) -> (r: &str)
        ensures
            r@ == self@.url,
    {
        self.url.as_str()
    }

    pub fn other_parameters(&self) -> (r: &Option<Vec<(String, String)>>)
        ensures
            self@.other_parameters == (match *r {
                Some(ref p) => Some(params_model(p@)),
                None => None::<Seq<(Seq<char>, Seq<char>)>>,
            }),
    {
        &self.other_parameters
    }

    /// The value of one extra parameter, when configured.
    pub fn param(&self, key: &str) -> (r: Option<String>)
        ensures
            match self@.other_parameters {
                Some(params) => (match r {
                    Some(v) => param_lookup(params, key@) == Some(v@),
                    None => param_lookup(params, key@) is None,
                }),
                None => r is None,
            },
    {
        match &self.other_parameters {
            Some(params) => {
                let ghost pm = params_model(params@);
                let mut i: usize = 0;
                proof {
                    assert(pm.skip(0) =~= pm);
                }
                while i < params.len()
                    invariant
                        i <= params@.len(),
                        pm == params_model(params@),
                        self@.other_parameters == Some(pm),
                        param_lookup(pm, key@) == param_lookup(pm.skip(i as int), key@),
                    decreases params@.len() - i,
                {
                    proof {
                        assert(pm.skip(i as int)[0] == (params@[i as int].0@, params@[i as int].1@));
                        assert(pm.skip(i as int).drop_first() =~= pm.skip(i + 1));
                    }
                    if crate::strutil::str_eq(params[i].0.as_str(), key) {
                        proof {
                            assert(pm.skip(i as int)[0].0 == key@);
                            assert(param_lookup(pm, key@) == Some(params@[i as int].1@));
                            assert(self@.other_parameters == Some(pm));
                        }
                        return Some(params[i].1.clone());
                    }
                    i += 1;
                }
                proof {
                    assert(pm.skip(pm.len() as int).len() == 0);
                }
                None
            },
            None => None,
        }
    }

    /// A field-for-field copy.
    pub fn duplicate(&self) -> (r: Self)
        ensures
            r@ == self@,
    {
        let params: Option<Vec<(String, String)>> = match &self.other_parameters {
            Some(p) => {
                let mut out: Vec<(String, String)> = Vec::new();
                let mut i: usize = 0;
                while i < p.len()
                    invariant
                        i <= p@.len(),
                        out@.len() == i,
                        forall|k: int|
                            0 <= k < i ==> (#[trigger] out@[k]).0@ == p@[k].0@ && out@[k].1@
                                == p@[k].1@,
                    decreases p@.len() - i,
                {
                    out.push((p[i].0.clone(), p[i].1.clone()));
                    i += 1;
                }
                proof {
                    assert(params_model(out@) =~= params_model(p@));
                }
                Some(out)
            },
            None => None,
        };
        Repository::new(self.name.clone(), self.url.clone(), params)
    }
}

/// The models of a repository list, in order.
pub open spec fn repos_model(rs: Seq<Repository>) -> Seq<RepositoryModel> {
    rs.map_values(|r: Repository| r@)
}

/// First repository with the given name, scanning in order.
pub open spec fn find_repo(rs: Seq<RepositoryModel>, name: Seq<char>) -> Option<RepositoryModel>
    decreases rs.len(),
{
    if rs.len() == 0 {
        None
    } else if rs[0].name == name {
        Some(rs[0])
    } else {
        find_repo(rs.drop_first(), name)
    }
}

/// A write-once cell for the repository configuration: filled exactly
/// once, read-only afterwards. A second fill attempt is reported, never
/// applied.
#[derive(Debug)]
pub struct RegistryCell {
    inner: Option<Vec<Repository>>,
}

impl View for RegistryCell {
    type V = Option<Seq<RepositoryModel>>;

    closed spec fn view(&self) -> Option<Seq<RepositoryModel>> {
        match self.inner {
            Some(ref rs) => Some(repos_model(rs@)),
            None => None,
        }
    }
}

impl RegistryCell {
    /// An unfilled cell.
    pub fn new() -> (r: Self)
        ensures
            r@ is None,
    {
        RegistryCell { inner: None }
    }

    /// Fill the cell. A second call fails with `AlreadyInitialized` and
    /// leaves the first configuration intact.
    pub fn init(&mut self, repos: Vec<Repository>) -> (r: Result<(), ReposError>)
        ensures
            old(self)@ is None ==> r is Ok && final(self)@ == Some(repos_model(repos@)),
            old(self)@ is Some ==> (r matches Err(ReposError::AlreadyInitialized)) && final(self)@
                == old(self)@,
    {
        match self.inner {
            Some(_) => Err(ReposError::AlreadyInitialized),
            None => {
                self.inner = Some(repos);
                Ok(())
            },
        }
    }

    /// Borrow every configured repository.
    pub fn all(&self) -> (r: Result<&Vec<Repository>, ReposError>)
        ensures
            match r {
                Ok(rs) => self@ == Some(repos_model(rs@)),
                Err(e) => self@ is None && e matches ReposError::NotInitialized,
            },
    {
        match &self.inner {
            Some(rs) => Ok(rs),
            None => Err(ReposError::NotInitialized),
        }
    }

    /// An owned copy of every configured repository.
    pub fn all_owned(&self) -> (r: Result<Vec<Repository>, ReposError>)
        ensures
            match r {
                Ok(rs) => self@ == Some(repos_model(rs@)),
                Err(e) => self@ is None && e matches ReposError::NotInitialized,
            },
    {
        match &self.inner {
            Some(rs) => {
                let mut out: Vec<Repository> = Vec::new();
                let mut i: usize = 0;
                while i < rs.len()
                    invariant
                        i <= rs@.len(),
                        out@.len() == i,
                        forall|k: int| 0 <= k < i ==> (#[trigger] out@[k])@ == rs@[k]@,
                    decreases rs@.len() - i,
                {
                    out.push(rs[i].duplicate());
                    i += 1;
                }
                proof {
                    assert(repos_model(out@) =~= repos_model(rs@));
                }
                Ok(out)
            },
            None => Err(ReposError::NotInitialized),
        }
    }

    /// Find a repository by name.
    pub fn by_name(&self, name: &str) -> (r: Result<Option<&Repository>, ReposError>)
        ensures
            match r {
                Ok(o) => self@ matches Some(rs) && (match o {
                    Some(repo) => find_repo(rs, name@) == Some(repo@),
                    None => find_repo(rs, name@) is None,
                }),
                Err(e) => self@ is None && e matches ReposError::NotInitialized,
            },
    {
        match &self.inner {
            Some(rs) => {
                let ghost rm = repos_model(rs@);
                let mut i: usize = 0;
                proof {
                    assert(rm.skip(0) =~= rm);
                }
                while i < rs.len()
                    invariant
                        i <= rs@.len(),
                        rm == repos_model(rs@),
                        self@ == Some(rm),
                        find_repo(rm, name@) == find_repo(rm.skip(i as int), name@),
                    decreases rs@.len() - i,
                {
                    proof {
                        assert(rm.skip(i as int)[0] == rs@[i as int]@);
                        assert(rm.skip(i as int).drop_first() =~= rm.skip(i + 1));
                    }
                    if crate::strutil::str_eq(rs[i].name(), name) {
                        proof {
                            assert(rm.skip(i as int)[0].name == name@);
                            assert(find_repo(rm, name@) == Some(rs@[i as int]@));
                            assert(self@ == Some(rm));
                        }
                        return Ok(Some(&rs[i]));
                    }
                    i += 1;
                }
                proof {
                    assert(rm.skip(rm.len() as int).len() == 0);
                }
                Ok(None)
            },
            None => Err(ReposError::NotInitialized),
        }
    }
}

} // verus!
