use vstd::prelude::*;

use crate::config::{get_language_config, Config, ConfigError};

verus! {

/// A submission message as it travels on the queue.
pub struct Payload {
    pub task_id: String,
    pub submission_id: u64,
    pub code: String,
    pub language: String,
}

/// A request to judge a submission.
pub struct CreateSubmission {
    pub task_id: String,
    pub submission_id: u64,
    pub code: String,
    pub language: String,
}

/// A request that names a task.
pub struct GetTask {
    pub task_id: String,
}

/// The name of the queue that submissions travel on.
pub fn queue_name() -> (r: String)
    ensures
        r@ == "queue"@,
{
    String::from_str("queue")
}

/// Admits a submission: one in a language that the configuration knows
/// becomes the message to put on the queue; any other is refused.
pub fn create_submission(config: &Config, req: CreateSubmission) -> (r: Result<Payload, ConfigError>)
    requires
        config.wf(),
    ensures
        r is Ok <==> config.supports(req.language@),
        r is Err ==> r == Err::<Payload, ConfigError>(ConfigError::UnsupportedLanguage),
        r is Ok ==> {
            let p = r->Ok_0;
            &&& p.task_id@ == req.task_id@
            &&& p.submission_id == req.submission_id
            &&& p.code@ == req.code@
            &&& p.language@ == req.language@
        },
{
    match get_language_config(config, req.language.as_str()) {
        Ok(_) => Ok(
            Payload {
                task_id: req.task_id,
                submission_id: req.submission_id,
                code: req.code,
                language: req.language,
            },
        ),
        Err(e) => Err(e),
    }
}

} // verus!
