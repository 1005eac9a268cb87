//! The Docker files a new project can be given.
use vstd::prelude::*;
use crate::text::{extend, from_chars, to_chars};

verus! {

pub open spec fn dockerfile_text() -> Seq<char> {
    "# Build stage\nFROM eclipse-temurin:21-jdk-alpine AS build\nWORKDIR /app\nCOPY . .\nRUN if [ -f \"mvnw\" ]; then ./mvnw clean package -DskipTests; else ./gradlew build -x test; fi\n# Find the generated jar and copy it to a known location, ignoring plain jars\nRUN find . -type f -name \"*.jar\" ! -name \"*-plain.jar\" -exec cp {} /app/app.jar \\;\n\n# Run stage\nFROM eclipse-temurin:21-jre-alpine\nWORKDIR /app\nCOPY --from=build /app/app.jar app.jar\nEXPOSE 8080\nENTRYPOINT [\"java\", \"-jar\", \"app.jar\"]\n"@
}

pub open spec fn compose_text() -> Seq<char> {
    "version: '3.8'\n\nservices:\n  app:\n    build: .\n    ports:\n      - \"8080:8080\"\n    environment:\n      - SPRING_DATASOURCE_URL=jdbc:postgresql://db:5432/${POSTGRES_DB}\n      - SPRING_DATASOURCE_USERNAME=${POSTGRES_USER}\n      - SPRING_DATASOURCE_PASSWORD=${POSTGRES_PASSWORD}\n    depends_on:\n      db:\n        condition: service_healthy\n\n  db:\n    image: postgres:15-alpine\n    ports:\n      - \"5432:5432\"\n    environment:\n      POSTGRES_USER: ${POSTGRES_USER}\n      POSTGRES_PASSWORD: ${POSTGRES_PASSWORD}\n      POSTGRES_DB: ${POSTGRES_DB}\n    healthcheck:\n      test: [\"CMD-SHELL\", \"pg_isready -U ${POSTGRES_USER} -d ${POSTGRES_DB}\"]\n      interval: 5s\n      timeout: 5s\n      retries: 5\n    volumes:\n      - postgres_data:/var/lib/postgresql/data\n\nvolumes:\n  postgres_data:\n"@
}

/// The database settings: a user, a password, and a database named after
/// the artifact.
pub open spec fn env_text(artifact: Seq<char>) -> Seq<char> {
    "POSTGRES_USER=myuser\nPOSTGRES_PASSWORD=secret\nPOSTGRES_DB="@ + artifact + "\n"@
}

/// The files Docker support adds, by name: a two-stage `Dockerfile`, a
/// `docker-compose.yml` with the application and a PostgreSQL database, and
/// the `.env` the latter reads.
pub open spec fn spec_docker_files(artifact: Seq<char>) -> Seq<(Seq<char>, Seq<char>)> {
    seq![
        ("Dockerfile"@, dockerfile_text()),
        ("docker-compose.yml"@, compose_text()),
        (".env"@, env_text(artifact)),
    ]
}

pub open spec fn file_views(v: Seq<(String, String)>) -> Seq<(Seq<char>, Seq<char>)> {
    v.map_values(|f: (String, String)| (f.0@, f.1@))
}

pub fn docker_files(artifact: &str) -> (r: Vec<(String, String)>)
    ensures
        file_views(r@) == spec_docker_files(artifact@),
{
    let dockerfile = "# Build stage\nFROM eclipse-temurin:21-jdk-alpine AS build\nWORKDIR /app\nCOPY . .\nRUN if [ -f \"mvnw\" ]; then ./mvnw clean package -DskipTests; else ./gradlew build -x test; fi\n# Find the generated jar and copy it to a known location, ignoring plain jars\nRUN find . -type f -name \"*.jar\" ! -name \"*-plain.jar\" -exec cp {} /app/app.jar \\;\n\n# Run stage\nFROM eclipse-temurin:21-jre-alpine\nWORKDIR /app\nCOPY --from=build /app/app.jar app.jar\nEXPOSE 8080\nENTRYPOINT [\"java\", \"-jar\", \"app.jar\"]\n".to_owned();
    let compose = "version: '3.8'\n\nservices:\n  app:\n    build: .\n    ports:\n      - \"8080:8080\"\n    environment:\n      - SPRING_DATASOURCE_URL=jdbc:postgresql://db:5432/${POSTGRES_DB}\n      - SPRING_DATASOURCE_USERNAME=${POSTGRES_USER}\n      - SPRING_DATASOURCE_PASSWORD=${POSTGRES_PASSWORD}\n    depends_on:\n      db:\n        condition: service_healthy\n\n  db:\n    image: postgres:15-alpine\n    ports:\n      - \"5432:5432\"\n    environment:\n      POSTGRES_USER: ${POSTGRES_USER}\n      POSTGRES_PASSWORD: ${POSTGRES_PASSWORD}\n      POSTGRES_DB: ${POSTGRES_DB}\n    healthcheck:\n      test: [\"CMD-SHELL\", \"pg_isready -U ${POSTGRES_USER} -d ${POSTGRES_DB}\"]\n      interval: 5s\n      timeout: 5s\n      retries: 5\n    volumes:\n      - postgres_data:/var/lib/postgresql/data\n\nvolumes:\n  postgres_data:\n".to_owned();
    let mut env = to_chars("POSTGRES_USER=myuser\nPOSTGRES_PASSWORD=secret\nPOSTGRES_DB=");
    extend(&mut env, &to_chars(artifact));
    extend(&mut env, &to_chars("\n"));
    let mut out: Vec<(String, String)> = Vec::new();
    out.push(("Dockerfile".to_owned(), dockerfile));
    out.push(("docker-compose.yml".to_owned(), compose));
    out.push((".env".to_owned(), from_chars(&env)));
    assert(file_views(out@) =~= spec_docker_files(artifact@));
    out
}

} // verus!
