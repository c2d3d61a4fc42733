//! The rules: literals, regular expressions and the user agents of scanners.
//! Each has a threat category and a score; a score of 100 is a block by
//! default, a lower one counts together with others.

use vstd::prelude::*;

verus! {

/// Literals: the pattern, its category and its score. ASCII case is ignored.
pub const LITERAL_RULES: [(&'static str, &'static str, u32); 97] = [
    ("union select", "SQLi", 70),
    ("union all select", "SQLi", 70),
    ("information_schema", "SQLi", 80),
    ("' or '1'='1", "SQLi", 100),
    ("' or 1=1", "SQLi", 100),
    ("\" or \"1\"=\"1", "SQLi", 100),
    ("or 1=1--", "SQLi", 100),
    ("'; drop table", "SQLi", 100),
    ("; drop table", "SQLi", 90),
    ("sleep(", "SQLi", 70),
    ("benchmark(", "SQLi", 70),
    ("waitfor delay", "SQLi", 80),
    ("load_file(", "SQLi", 80),
    ("into outfile", "SQLi", 70),
    ("xp_cmdshell", "SQLi", 100),
    ("' --", "SQLi", 40),
    ("'--", "SQLi", 40),
    ("<script", "XSS", 90),
    ("</script", "XSS", 60),
    ("javascript:", "XSS", 70),
    ("onerror=", "XSS", 80),
    ("onload=", "XSS", 70),
    ("onmouseover=", "XSS", 70),
    ("<svg", "XSS", 60),
    ("<iframe", "XSS", 70),
    ("document.cookie", "XSS", 80),
    ("alert(", "XSS", 40),
    ("String.fromCharCode", "XSS", 60),
    ("../", "PathTraversal", 50),
    ("..\\", "PathTraversal", 50),
    ("/etc/passwd", "PathTraversal", 90),
    ("/etc/shadow", "PathTraversal", 90),
    ("c:\\windows", "PathTraversal", 70),
    ("boot.ini", "PathTraversal", 70),
    ("php://filter", "PathTraversal", 90),
    ("file://", "PathTraversal", 60),
    ("$(", "CommandInjection", 30),
    ("; cat ", "CommandInjection", 80),
    ("; ls ", "CommandInjection", 70),
    ("| nc ", "CommandInjection", 90),
    ("nc -e", "CommandInjection", 100),
    ("/bin/sh", "CommandInjection", 80),
    ("/bin/bash", "CommandInjection", 80),
    ("wget http", "CommandInjection", 70),
    ("curl http", "CommandInjection", 60),
    ("; ping ", "CommandInjection", 60),
    ("jndi:ldap", "Log4Shell", 100),
    ("jndi:rmi", "Log4Shell", 100),
    ("jndi:dns", "Log4Shell", 100),
    ("__class__", "SSTI", 80),
    ("freemarker", "SSTI", 60),
    ("runtime.getruntime", "SSTI", 90),
    ("extractvalue(", "SQLi", 90),
    ("updatexml(", "SQLi", 90),
    ("procedure analyse", "SQLi", 80),
    ("order by", "SQLi", 20),
    ("formaction", "XSS", 60),
    ("srcdoc", "XSS", 60),
    ("onfocus", "XSS", 50),
    ("ontoggle", "XSS", 60),
    ("<img", "XSS", 40),
    ("<body", "XSS", 40),
    ("dict://", "SSRF", 70),
    ("gopher://", "SSRF", 80),
    ("/proc/self/", "PathTraversal", 80),
    ("web.config", "PathTraversal", 60),
    ("/.git/", "InfoDisclosure", 90),
    (".git/config", "InfoDisclosure", 100),
    (".git/head", "InfoDisclosure", 90),
    ("/.env", "InfoDisclosure", 80),
    ("/.svn/", "InfoDisclosure", 80),
    ("/.hg/", "InfoDisclosure", 70),
    (".ds_store", "InfoDisclosure", 70),
    ("id_rsa", "InfoDisclosure", 80),
    (".htpasswd", "InfoDisclosure", 80),
    ("/web-inf/", "InfoDisclosure", 70),
    (".bak", "InfoDisclosure", 40),
    (".swp", "InfoDisclosure", 50),
    ("dbms_pipe", "SQLi", 80),
    (";cat", "CommandInjection", 30),
    ("|bash", "CommandInjection", 80),
    ("powershell -", "CommandInjection", 80),
    ("invoke-expression", "CommandInjection", 90),
    ("expect://", "PathTraversal", 90),
    ("os.system(", "RCE", 90),
    ("runtime.exec", "RCE", 90),
    ("{{config}}", "SSTI", 80),
    ("{{7*7}}", "SSTI", 80),
    ("<!entity", "XXE", 90),
    ("system \"file:", "XXE", 90),
    ("$ne", "NoSQLi", 40),
    ("$regex", "NoSQLi", 60),
    ("$where", "NoSQLi", 70),
    ("*)(uid=", "LDAPi", 90),
    ("*)(cn=", "LDAPi", 90),
    ("%0d%0aset-cookie", "CRLF", 90),
    ("%0d%0alocation", "CRLF", 90),
];

/// Names of scanners and attack tools as they stand, in lower case, in a user
/// agent, each with its score.
pub const SCANNER_UA: [(&'static str, u32); 15] = [
    ("sqlmap", 100),
    ("nikto", 100),
    ("nmap", 90),
    ("masscan", 90),
    ("acunetix", 100),
    ("nessus", 90),
    ("dirbuster", 80),
    ("gobuster", 70),
    ("wpscan", 80),
    ("hydra", 80),
    ("nuclei", 80),
    ("burpsuite", 80),
    ("zap", 60),
    ("wfuzz", 80),
    ("ffuf", 80),
];

/// Regular expressions: the source, its category and its score.
pub const REGEX_DEFS: [(&'static str, &'static str, u32); 8] = [
    (r"(?i)\bunion\s+(all\s+)?select\s*(\(|null|\d|@@|\*|[a-z_]+\s*\(|.{0,120}?\bfrom\b)", "SQLi", 100),
    (r"(?i)\bor\b\s+\d+\s*=\s*\d+", "SQLi", 90),
    (r"(?i)<\s*script", "XSS", 90),
    (r"(?i)<[a-z][^>]{0,200}?\bon[a-z]+\s*=", "XSS", 80),
    (r"(?:%2e%2e|\.\.)[/\\]", "PathTraversal", 50),
    (r"(?i)\$\{jndi:(ldap|rmi|dns|iiop)", "Log4Shell", 100),
    (r"(?i)(select|and|or)\s+.{0,60}?(sleep|benchmark|waitfor)\s*\(", "SQLi", 80),
    (r"(?i)=\s*https?://((127|10)\.\d{1,3}|192\.168|172\.(1[6-9]|2\d|3[01])|169\.254)\.\d{1,3}\.\d{1,3}\b", "SSRF", 60),
];

/// The category of a scanner's user agent.
pub const SCANNER: &'static str = "Scanner";

/// A rule as its texts and its score.
pub struct RuleView {
    pub pattern: Seq<char>,
    pub category: Seq<char>,
    pub score: u32,
}

/// A row of a table as a rule.
pub open spec fn rule_view(row: (&'static str, &'static str, u32)) -> RuleView {
    RuleView { pattern: row.0@, category: row.1@, score: row.2 }
}

/// The rows of a table as rules.
pub open spec fn rule_views(rows: Seq<(&'static str, &'static str, u32)>) -> Seq<RuleView> {
    Seq::new(rows.len(), |i: int| rule_view(rows[i]))
}

/// No score is 0, and none is above 100.
pub proof fn lemma_scores()
    ensures
        forall|i: int|
            0 <= i < LITERAL_RULES@.len() ==> 0 < (#[trigger] LITERAL_RULES@[i]).2 <= 100,
        forall|i: int| 0 <= i < REGEX_DEFS@.len() ==> 0 < (#[trigger] REGEX_DEFS@[i]).2 <= 100,
        forall|i: int| 0 <= i < SCANNER_UA@.len() ==> 0 < (#[trigger] SCANNER_UA@[i]).1 <= 100,
{
}

/// No literal is empty.
pub proof fn lemma_literals()
    ensures
        forall|i: int| 0 <= i < LITERAL_RULES@.len() ==> (#[trigger] LITERAL_RULES@[i]).0@.len() > 0,
{
    reveal_strlit("union select");
    reveal_strlit("union all select");
    reveal_strlit("information_schema");
    reveal_strlit("' or '1'='1");
    reveal_strlit("' or 1=1");
    reveal_strlit("\" or \"1\"=\"1");
    reveal_strlit("or 1=1--");
    reveal_strlit("'; drop table");
    reveal_strlit("; drop table");
    reveal_strlit("sleep(");
    reveal_strlit("benchmark(");
    reveal_strlit("waitfor delay");
    reveal_strlit("load_file(");
    reveal_strlit("into outfile");
    reveal_strlit("xp_cmdshell");
    reveal_strlit("' --");
    reveal_strlit("'--");
    reveal_strlit("<script");
    reveal_strlit("</script");
    reveal_strlit("javascript:");
    reveal_strlit("onerror=");
    reveal_strlit("onload=");
    reveal_strlit("onmouseover=");
    reveal_strlit("<svg");
    reveal_strlit("<iframe");
    reveal_strlit("document.cookie");
    reveal_strlit("alert(");
    reveal_strlit("String.fromCharCode");
    reveal_strlit("../");
    reveal_strlit("..\\");
    reveal_strlit("/etc/passwd");
    reveal_strlit("/etc/shadow");
    reveal_strlit("c:\\windows");
    reveal_strlit("boot.ini");
    reveal_strlit("php://filter");
    reveal_strlit("file://");
    reveal_strlit("$(");
    reveal_strlit("; cat ");
    reveal_strlit("; ls ");
    reveal_strlit("| nc ");
    reveal_strlit("nc -e");
    reveal_strlit("/bin/sh");
    reveal_strlit("/bin/bash");
    reveal_strlit("wget http");
    reveal_strlit("curl http");
    reveal_strlit("; ping ");
    reveal_strlit("jndi:ldap");
    reveal_strlit("jndi:rmi");
    reveal_strlit("jndi:dns");
    reveal_strlit("__class__");
    reveal_strlit("freemarker");
    reveal_strlit("runtime.getruntime");
    reveal_strlit("extractvalue(");
    reveal_strlit("updatexml(");
    reveal_strlit("procedure analyse");
    reveal_strlit("order by");
    reveal_strlit("formaction");
    reveal_strlit("srcdoc");
    reveal_strlit("onfocus");
    reveal_strlit("ontoggle");
    reveal_strlit("<img");
    reveal_strlit("<body");
    reveal_strlit("dict://");
    reveal_strlit("gopher://");
    reveal_strlit("/proc/self/");
    reveal_strlit("web.config");
    reveal_strlit("/.git/");
    reveal_strlit(".git/config");
    reveal_strlit(".git/head");
    reveal_strlit("/.env");
    reveal_strlit("/.svn/");
    reveal_strlit("/.hg/");
    reveal_strlit(".ds_store");
    reveal_strlit("id_rsa");
    reveal_strlit(".htpasswd");
    reveal_strlit("/web-inf/");
    reveal_strlit(".bak");
    reveal_strlit(".swp");
    reveal_strlit("dbms_pipe");
    reveal_strlit(";cat");
    reveal_strlit("|bash");
    reveal_strlit("powershell -");
    reveal_strlit("invoke-expression");
    reveal_strlit("expect://");
    reveal_strlit("os.system(");
    reveal_strlit("runtime.exec");
    reveal_strlit("{{config}}");
    reveal_strlit("{{7*7}}");
    reveal_strlit("<!entity");
    reveal_strlit("system \"file:");
    reveal_strlit("$ne");
    reveal_strlit("$regex");
    reveal_strlit("$where");
    reveal_strlit("*)(uid=");
    reveal_strlit("*)(cn=");
    reveal_strlit("%0d%0aset-cookie");
    reveal_strlit("%0d%0alocation");
}

/// No literal and no regular expression is of the category of the scanners.
pub proof fn lemma_categories()
    ensures
        forall|i: int|
            0 <= i < LITERAL_RULES@.len() ==> (#[trigger] LITERAL_RULES@[i]).1@ != SCANNER@,
        forall|i: int| 0 <= i < REGEX_DEFS@.len() ==> (#[trigger] REGEX_DEFS@[i]).1@ != SCANNER@,
{
    reveal_strlit("SQLi");
    reveal_strlit("XSS");
    reveal_strlit("PathTraversal");
    reveal_strlit("CommandInjection");
    reveal_strlit("Log4Shell");
    reveal_strlit("SSTI");
    reveal_strlit("SSRF");
    reveal_strlit("InfoDisclosure");
    reveal_strlit("RCE");
    reveal_strlit("XXE");
    reveal_strlit("NoSQLi");
    reveal_strlit("LDAPi");
    reveal_strlit("CRLF");
    reveal_strlit("Scanner");
    assert("Scanner"@.len() == 7 && "Scanner"@[1] == 'c');
    assert("SQLi"@.len() == 4);
    assert("XSS"@.len() == 3);
    assert("PathTraversal"@.len() == 13);
    assert("CommandInjection"@.len() == 16);
    assert("Log4Shell"@.len() == 9);
    assert("SSTI"@.len() == 4);
    assert("SSRF"@.len() == 4);
    assert("InfoDisclosure"@.len() == 14);
    assert("RCE"@.len() == 3);
    assert("XXE"@.len() == 3);
    assert("NoSQLi"@.len() == 6);
    assert("LDAPi"@.len() == 5);
    assert("CRLF"@.len() == 4);
}

} // verus!
