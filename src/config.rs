use vstd::prelude::*;
use vstd::string::StringExecFns;

verus! {

/// The settings of the deployment board.
#[derive(Clone, Debug, Default)]
pub struct Config {
    pub gitlab: crate::gitlab::Config,
    pub vault: crate::vault::Config,
    pub harbor: crate::harbor::Config,
    pub envs: Vec<String>,
    pub sources: Vec<Source>,
}

/// A project to deploy from, with where its secrets and its deployments live.
/// The per-environment tables hold `(environment, value)` pairs, no
/// environment twice.
#[derive(Clone, Debug, Default)]
pub struct Source {
    pub gitlab_project: String,
    pub vault_path: Option<String>,
    pub vault_paths: Option<Vec<(String, String)>>,
    pub argocd_endpoint: Option<String>,
    pub argocd_endpoints: Option<Vec<(String, String)>>,
    pub argocd_prefix: Option<String>,
    pub env: Option<String>,
}

/// The value of the first pair whose environment is `env`.
pub open spec fn value_for(table: Seq<(String, String)>, env: Seq<char>) -> Option<Seq<char>>
    decreases table.len(),
{
    if table.len() == 0 {
        None
    } else if table[0].0@ == env {
        Some(table[0].1@)
    } else {
        value_for(table.drop_first(), env)
    }
}

/// The single value if there is one, else the value for `env` in the table.
pub open spec fn setting_for(single: Option<String>, table: Option<Vec<(String, String)>>, env: Seq<char>) -> Option<Seq<char>> {
    match single {
        Some(s) => Some(s@),
        None => match table {
            Some(t) => value_for(t@, env),
            None => None,
        },
    }
}

fn lookup(table: &Vec<(String, String)>, env: &String) -> (r: Option<String>)
    ensures
        match r {
            Some(v) => value_for(table@, env@) == Some(v@),
            None => value_for(table@, env@) is None,
        },
{
    let mut i: usize = 0;
    proof {
        assert(table@.skip(0) =~= table@);
    }
    while i < table.len()
        invariant
            i <= table@.len(),
            value_for(table@, env@) == value_for(table@.skip(i as int), env@),
        decreases table@.len() - i,
    {
        proof {
            assert(table@.skip(i as int).drop_first() =~= table@.skip(i + 1));
        }
        if table[i].0 == *env {
            return Some(table[i].1.clone());
        }
        i += 1;
    }
    None
}

fn setting(single: &Option<String>, table: &Option<Vec<(String, String)>>, env: &String) -> (r: Option<String>)
    ensures
        match r {
            Some(v) => setting_for(*single, *table, env@) == Some(v@),
            None => setting_for(*single, *table, env@) is None,
        },
{
    match single {
        Some(s) => Some(s.clone()),
        None => match table {
            Some(t) => lookup(t, env),
            None => None,
        },
    }
}

/// One environment of a project: where its deployment file lives, and the
/// source settings it is read with.
#[derive(Clone, Debug)]
pub struct Deployment {
    pub name: String,
    pub env: String,
    pub path: String,
    pub source: Source,
    pub git_project: Option<crate::gitlab::Project>,
}

impl Deployment {
    /// The vault path of the source, or the one its table gives for this environment.
    pub fn vault_path(&self) -> (r: Option<String>)
        ensures
            match r {
                Some(v) => setting_for(self.source.vault_path, self.source.vault_paths, self.env@) == Some(v@),
                None => setting_for(self.source.vault_path, self.source.vault_paths, self.env@) is None,
            },
    {
        setting(&self.source.vault_path, &self.source.vault_paths, &self.env)
    }

    /// The Argo CD endpoint of the source, or the one its table gives for this environment.
    pub fn argocd_endpoint(&self) -> (r: Option<String>)
        ensures
            match r {
                Some(v) => setting_for(self.source.argocd_endpoint, self.source.argocd_endpoints, self.env@)
                    == Some(v@),
                None => setting_for(self.source.argocd_endpoint, self.source.argocd_endpoints, self.env@) is None,
            },
    {
        setting(&self.source.argocd_endpoint, &self.source.argocd_endpoints, &self.env)
    }

    /// The application-name prefix, followed by a dash, if the source has one.
    pub fn argocd_prefix(&self) -> (r: Option<String>)
        ensures
            match r {
                Some(p) => self.source.argocd_prefix matches Some(q) && p@ == q@ + "-"@,
                None => self.source.argocd_prefix is None,
            },
    {
        proof {
            reveal_strlit("-");
        }
        match &self.source.argocd_prefix {
            Some(prefix) => {
                let mut p = prefix.clone();
                p.append("-");
                Some(p)
            },
            None => None,
        }
    }
}

} // verus!
