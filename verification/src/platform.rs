use vstd::prelude::*;
use vstd::string::StringExecFns;

verus! {

/// The directories where Java runtimes usually live on this platform.
pub fn get_default_java_paths() -> (r: Vec<String>)
    ensures
        r@.len() == 3,
        r@[0]@ == "/usr/lib/jvm"@,
        r@[1]@ == "/usr/java"@,
        r@[2]@ == "/opt/java"@,
{
    let mut paths: Vec<String> = Vec::new();
    paths.push(String::from_str("/usr/lib/jvm"));
    paths.push(String::from_str("/usr/java"));
    paths.push(String::from_str("/opt/java"));
    paths
}

/// The separator between classpath entries on this platform.
pub fn get_classpath_separator() -> (r: &'static str)
    ensures
        r@ == ":"@,
{
    ":"
}

} // verus!
