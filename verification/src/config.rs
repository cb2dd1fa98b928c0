//! What is kept of a repository's configuration, and where.

use vstd::prelude::*;
use vstd::string::StringExecFns;
use crate::branches;
use crate::branches::BranchType;
use crate::errors::StackError;
use crate::events::CandyEvent;
use crate::git::Git;
use crate::reviews::CodeReviewService;
use crate::text;

verus! {

/// How the review tool is logged into: by name and password, or by token.
#[derive(Debug)]
pub struct CRAuth {
    pub user: Option<String>,
    pub pass: Option<String>,
    pub token: Option<String>,
}

/// The review tools that can be configured.
#[derive(Clone, Copy, Debug, PartialEq, Eq, Structural)]
pub enum ReviewTool {
    Unset,
    Github,
}

/// What is kept of a branch.
#[derive(Debug)]
pub struct GrConfBranch {
    pub name: String,
    pub parent: Option<String>,
    pub remote_branch: Option<String>,
    pub review_id: Option<String>,
}

/// The configuration of a repository.
#[derive(Debug)]
pub struct GRConfig {
    pub origin: String,
    pub root_branch: String,
    pub code_review_tool: String,
    pub code_review_user: Option<String>,
    pub code_review_pass: Option<String>,
    pub code_review_key: Option<String>,
    pub version: String,
    pub branches: Vec<GrConfBranch>,
}

/// The version that a fresh configuration bears.
pub const CONFIG_VERSION: &'static str = "1.0.0";

impl ReviewTool {
    pub open spec fn name_spec(self) -> Seq<char> {
        match self {
            ReviewTool::Unset => "None"@,
            ReviewTool::Github => "Github"@,
        }
    }

    /// The name of the tool.
    pub fn to_string(&self) -> (r: String)
        ensures
            r@ == self.name_spec(),
    {
        match self {
            ReviewTool::Unset => String::from_str("None"),
            ReviewTool::Github => String::from_str("Github"),
        }
    }
}

/// The last piece of a path: what stands behind its last separator, or
/// before it where the path ends in one.
pub open spec fn last_component(pieces: Seq<Seq<char>>) -> Seq<char>
    decreases pieces.len(),
{
    if pieces.len() == 0 {
        Seq::empty()
    } else if pieces.last().len() > 0 {
        pieces.last()
    } else {
        last_component(pieces.drop_last())
    }
}

/// The directory of a repository's configuration: below `.config/gr` in the
/// home directory, under the name of the working directory and then under
/// its whole path.
pub open spec fn config_dir_spec(home: Seq<char>, cwd: Seq<char>) -> Seq<char> {
    home + "/.config/gr/"@ + last_component(text::split_spec(cwd, '/')) + "/"@ + cwd
}

/// The directory of the configuration of the repository in `cwd`.
pub fn config_dir_path(home: &str, cwd: &str) -> (r: String)
    ensures
        r@ == config_dir_spec(home@, cwd@),
{
    let mut pieces = text::split(cwd, '/');
    let ghost all = text::views(pieces@);
    let mut project = String::new();
    while pieces.len() > 0
        invariant
            pieces@.len() <= all.len(),
            text::views(pieces@) == all.take(pieces@.len() as int),
            project@.len() == 0 ==> last_component(all) == last_component(text::views(pieces@)),
            project@.len() > 0 ==> last_component(all) == project@ && pieces@.len() == 0,
        decreases pieces@.len() + (if project@.len() == 0 {
            1nat
        } else {
            0nat
        }),
    {
        let ghost n = pieces@.len() as int;
        let ghost before = text::views(pieces@);
        let piece = pieces.pop().unwrap();
        assert(before.last() == piece@);
        assert(text::views(pieces@) =~= before.drop_last());
        assert(text::views(pieces@) =~= all.take(n - 1));
        if piece.as_str().unicode_len() > 0 {
            project = piece;
            pieces.clear();
            assert(text::views(pieces@) =~= all.take(0));
        }
    }
    String::from_str(home).concat("/.config/gr/").concat(project.as_str()).concat("/").concat(cwd)
}

/// The file that holds the configuration.
pub fn config_file_path(dir: &str) -> (r: String)
    ensures
        r@ == dir@ + "/config.toml"@,
{
    text::concat(dir, "/config.toml")
}

/// What a fresh configuration keeps of each of the first `n` local
/// branches: its name and its local parent.
pub open spec fn branch_conf_spec(
    edges: Seq<(Seq<char>, Seq<char>)>,
    locals: Seq<Seq<char>>,
    n: int,
) -> Seq<(Seq<char>, Option<Seq<char>>)> {
    Seq::new(
        n as nat,
        |i: int| (locals[i], branches::parent_spec(edges, locals, locals[i], BranchType::Local)),
    )
}

/// What is kept of the branches, as plain values: name and parent.
pub open spec fn branch_conf_views(v: Seq<GrConfBranch>) -> Seq<(Seq<char>, Option<Seq<char>>)> {
    Seq::new(
        v.len(),
        |i: int|
            (
                v[i].name@,
                match v[i].parent {
                    Some(p) => Some(p@),
                    None => None,
                },
            ),
    )
}

/// What a fresh configuration keeps of a branch.
pub fn build_gr_conf_branch(git: &Git, branch: &str) -> (r: Result<GrConfBranch, StackError>)
    ensures
        !git.inside ==> r is Err && r->Err_0 == StackError::NotARepository,
        git.inside ==> r is Ok && r->Ok_0.name@ == branch@ && r->Ok_0.remote_branch is None
            && r->Ok_0.review_id is None && (r->Ok_0.parent is Some <==> branches::parent_spec(
            git.edges(),
            git.locals(),
            branch@,
            BranchType::Local,
        ) is Some) && (r->Ok_0.parent is Some ==> r->Ok_0.parent->0@ == branches::parent_spec(
            git.edges(),
            git.locals(),
            branch@,
            BranchType::Local,
        )->0),
{
    match git.parent_of(branch, BranchType::Local) {
        Ok(parent) => Ok(
            GrConfBranch {
                name: String::from_str(branch),
                parent,
                remote_branch: None,
                review_id: None,
            },
        ),
        Err(e) => Err(e),
    }
}

/// What a fresh configuration keeps of the local branches.
pub fn build_branch_conf(git: &Git) -> (r: Result<Vec<GrConfBranch>, StackError>)
    ensures
        !git.inside ==> r is Err && r->Err_0 == StackError::NotARepository,
        git.inside ==> r is Ok && branch_conf_views(r->Ok_0@) == branch_conf_spec(
            git.edges(),
            git.locals(),
            git.locals().len() as int,
        ),
{
    if !git.inside {
        return Err(StackError::NotARepository);
    }
    let mut config: Vec<GrConfBranch> = Vec::new();
    let mut i: usize = 0;
    while i < git.heads.len()
        invariant
            i <= git.heads@.len(),
            git.inside,
            branch_conf_views(config@) =~= branch_conf_spec(git.edges(), git.locals(), i as int),
        decreases git.heads@.len() - i,
    {
        let ghost before = branch_conf_views(config@);
        match build_gr_conf_branch(git, git.heads[i].as_str()) {
            Ok(b) => {
                config.push(b);
                assert(branch_conf_views(config@) =~= before.push(
                    (
                        git.locals()[i as int],
                        branches::parent_spec(
                            git.edges(),
                            git.locals(),
                            git.locals()[i as int],
                            BranchType::Local,
                        ),
                    ),
                ));
            },
            Err(e) => {
                return Err(e);
            },
        }
        i += 1;
    }
    Ok(config)
}

/// A fresh configuration.  Without a remote the origin is empty.
pub fn initialize_gr(
    root_branch: String,
    remote: Option<String>,
    cr_tool: CodeReviewService,
    cr_auth: CRAuth,
    branches: Vec<GrConfBranch>,
) -> (r: GRConfig)
    ensures
        r.origin@ == (match remote {
            Some(o) => o@,
            None => Seq::empty(),
        }),
        r.root_branch == root_branch,
        r.code_review_tool@ == cr_tool.name_spec(),
        r.code_review_user == cr_auth.user,
        r.code_review_pass == cr_auth.pass,
        r.code_review_key == cr_auth.token,
        r.version@ == CONFIG_VERSION@,
        r.branches == branches,
{
    GRConfig {
        origin: match remote {
            Some(o) => o,
            None => String::new(),
        },
        root_branch,
        code_review_tool: cr_tool.to_string(),
        code_review_user: cr_auth.user,
        code_review_pass: cr_auth.pass,
        code_review_key: cr_auth.token,
        version: String::from_str(CONFIG_VERSION),
        branches,
    }
}

/// The root branch that the user chose.  Leaving the question unanswered
/// ends the initialisation.
pub fn select_root_branch(event: CandyEvent) -> (r: Result<String, StackError>)
    ensures
        event is Submit ==> r is Ok && r->Ok_0 == event->Submit_0,
        !(event is Submit) ==> r is Err && r->Err_0 == StackError::AmbiguousSelection,
{
    match event {
        CandyEvent::Submit(branch) => Ok(branch),
        _ => Err(StackError::AmbiguousSelection),
    }
}

/// The remote that the user chose, or none where the question was left
/// unanswered.
pub fn select_remote(event: CandyEvent) -> (r: Result<Option<String>, StackError>)
    ensures
        event is Submit ==> r is Ok && r->Ok_0 == Some(event->Submit_0),
        event is Cancel ==> r is Ok && r->Ok_0 is None,
        !(event is Submit) && !(event is Cancel) ==> r is Err && r->Err_0
            == StackError::AmbiguousSelection,
{
    match event {
        CandyEvent::Submit(remote) => Ok(Some(remote)),
        CandyEvent::Cancel => Ok(None),
        _ => Err(StackError::AmbiguousSelection),
    }
}

/// The review tool that the user chose.  Leaving the question unanswered
/// ends the initialisation.
pub fn select_review_tool(event: CandyEvent) -> (r: Result<CodeReviewService, StackError>)
    ensures
        event is Submit ==> r is Ok && r->Ok_0 == if event->Submit_0@ == "Github"@ {
            CodeReviewService::Github
        } else {
            CodeReviewService::Local
        },
        !(event is Submit) ==> r is Err && r->Err_0 == StackError::AmbiguousSelection,
{
    match event {
        CandyEvent::Submit(tool) => Ok(CodeReviewService::from_name(tool.as_str())),
        _ => Err(StackError::AmbiguousSelection),
    }
}

/// What the user is asked about the login to the review tool.
#[derive(Clone, Copy, Debug, PartialEq, Eq, Structural)]
pub enum AuthQuestion {
    /// Whether to use the token found in the environment.
    UseFoundToken,
    /// Whether to use the name and password found in the environment.
    UseFoundLogin,
    /// Whether there is a personal access token.
    HaveToken,
    Token,
    User,
    Pass,
}

/// What has been found and answered so far.
#[derive(Debug)]
pub struct AuthFacts {
    /// The token found in the environment.
    pub found_token: Option<String>,
    /// The name and the password found in the environment.
    pub found_user: Option<String>,
    pub found_pass: Option<String>,
    /// The answers to the three questions of yes or no, as far as given.
    pub use_found_token: Option<bool>,
    pub use_found_login: Option<bool>,
    pub have_token: Option<bool>,
    /// What the user typed, as far as asked.
    pub token: Option<String>,
    pub user: Option<String>,
    pub pass: Option<String>,
}

/// The next question about the login, or none where everything is known.
/// No review tool needs no login.  A token found in the environment is
/// offered first, then a name and password found there; then the user is
/// asked for a token or, without one, for name and password.
pub open spec fn auth_question(tool: CodeReviewService, f: AuthFacts) -> Option<AuthQuestion> {
    if tool == CodeReviewService::Local {
        None
    } else if f.found_token is Some && f.use_found_token is None {
        Some(AuthQuestion::UseFoundToken)
    } else if f.found_token is Some && f.use_found_token == Some(true) {
        None
    } else if f.found_user is Some && f.found_pass is Some && f.use_found_login is None {
        Some(AuthQuestion::UseFoundLogin)
    } else if f.found_user is Some && f.found_pass is Some && f.use_found_login == Some(true) {
        None
    } else if f.have_token is None {
        Some(AuthQuestion::HaveToken)
    } else if f.have_token == Some(true) {
        if f.token is None {
            Some(AuthQuestion::Token)
        } else {
            None
        }
    } else if f.user is None {
        Some(AuthQuestion::User)
    } else if f.pass is None {
        Some(AuthQuestion::Pass)
    } else {
        None
    }
}

/// The login that the facts amount to once no question is left: which of
/// the three parts it has.
pub open spec fn auth_parts(tool: CodeReviewService, f: AuthFacts) -> (
    Option<String>,
    Option<String>,
    Option<String>,
) {
    if tool == CodeReviewService::Local {
        (None, None, None)
    } else if f.found_token is Some && f.use_found_token == Some(true) {
        (None, None, f.found_token)
    } else if f.found_user is Some && f.found_pass is Some && f.use_found_login == Some(true) {
        (f.found_user, f.found_pass, None)
    } else if f.have_token == Some(true) {
        (None, None, f.token)
    } else {
        (f.user, f.pass, None)
    }
}

/// The next question about the login to the review tool, or the login
/// itself once everything is known.
pub fn get_cr_auth(cr_tool: CodeReviewService, facts: AuthFacts) -> (r: Result<CRAuth, AuthQuestion>)
    ensures
        r is Err <==> auth_question(cr_tool, facts) is Some,
        r is Err ==> r->Err_0 == auth_question(cr_tool, facts)->0,
        r is Ok ==> (r->Ok_0.user, r->Ok_0.pass, r->Ok_0.token) == auth_parts(cr_tool, facts),
{
    match cr_tool {
        CodeReviewService::Local => Ok(CRAuth { user: None, pass: None, token: None }),
        CodeReviewService::Github => {
            if facts.found_token.is_some() {
                match facts.use_found_token {
                    None => {
                        return Err(AuthQuestion::UseFoundToken);
                    },
                    Some(true) => {
                        return Ok(CRAuth { user: None, pass: None, token: facts.found_token });
                    },
                    Some(false) => {},
                }
            }
            if facts.found_user.is_some() && facts.found_pass.is_some() {
                match facts.use_found_login {
                    None => {
                        return Err(AuthQuestion::UseFoundLogin);
                    },
                    Some(true) => {
                        return Ok(
                            CRAuth { user: facts.found_user, pass: facts.found_pass, token: None },
                        );
                    },
                    Some(false) => {},
                }
            }
            match facts.have_token {
                None => Err(AuthQuestion::HaveToken),
                Some(true) => {
                    if facts.token.is_none() {
                        Err(AuthQuestion::Token)
                    } else {
                        Ok(CRAuth { user: None, pass: None, token: facts.token })
                    }
                },
                Some(false) => {
                    if facts.user.is_none() {
                        Err(AuthQuestion::User)
                    } else if facts.pass.is_none() {
                        Err(AuthQuestion::Pass)
                    } else {
                        Ok(CRAuth { user: facts.user, pass: facts.pass, token: None })
                    }
                },
            }
        },
    }
}

} // verus!
